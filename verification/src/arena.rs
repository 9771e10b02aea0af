//! The mathematical model of a bump arena.

use vstd::prelude::*;

verus! {

/// The state of a bump arena over unbounded naturals.
///
/// The arena manages the addresses `[start, start + size)`. The addresses
/// `[start, cursor)` have been handed out, padding included, and `live` counts
/// the blocks that were handed out and have not been given back.
pub struct Arena {
    /// First address of the managed region; `0` marks an arena that has not
    /// been given a region yet.
    pub start: nat,
    /// Number of bytes under management.
    pub size: nat,
    /// The next address that an allocation may hand out.
    pub cursor: nat,
    /// Number of outstanding allocations.
    pub live: nat,
}

impl Arena {
    /// The state of an arena that has not been given a region.
    pub open spec fn fresh() -> Arena {
        Arena { start: 0, size: 0, cursor: 0, live: 0 }
    }

    /// One past the last managed address.
    pub open spec fn end(self) -> nat {
        self.start + self.size
    }

    /// The arena's invariant: the region lies within the address space, the
    /// cursor lies within the region, the count of outstanding allocations is
    /// representable, and the cursor rests at the start of the region whenever
    /// nothing is outstanding.
    pub open spec fn wf(self) -> bool {
        &&& self.end() <= usize::MAX
        &&& self.start <= self.cursor <= self.end()
        &&& self.live <= usize::MAX
        &&& self.live == 0 ==> self.cursor == self.start
    }

    /// Whether the arena has been given a region.
    pub open spec fn is_initialized(self) -> bool {
        self.start != 0
    }

    /// Bytes between the start of the region and the cursor.
    pub open spec fn used(self) -> nat {
        (self.cursor - self.start) as nat
    }

    /// Bytes between the cursor and the end of the region.
    pub open spec fn available(self) -> nat {
        (self.size - self.used()) as nat
    }

    /// The state in which `[start, start + size)` is managed and nothing has
    /// been handed out.
    pub open spec fn init(start: nat, size: nat) -> Arena {
        Arena { start, size, cursor: start, live: 0 }
    }

    /// Whether a block that starts at `start` begins exactly where the managed
    /// region ends.
    pub open spec fn adjoins(self, start: nat) -> bool {
        start == self.end()
    }

    /// Whether the arena takes a block that starts at `start`: it takes any
    /// block while it has no region, and afterwards only one that adjoins its
    /// region.
    pub open spec fn accepts(self, start: nat) -> bool {
        !self.is_initialized() || self.adjoins(start)
    }

    /// The state after the block `[start, start + size)` was offered. An arena
    /// without a region starts afresh on the block; an adjoining block makes
    /// the region longer and leaves cursor and count alone; any other block
    /// changes nothing.
    pub open spec fn add_memory(self, start: nat, size: nat) -> Arena {
        if !self.is_initialized() {
            Arena::init(start, size)
        } else if self.adjoins(start) {
            Arena { size: self.size + size, ..self }
        } else {
            self
        }
    }

    /// Bytes to skip so that the cursor becomes a multiple of `align`.
    pub open spec fn padding(self, align: nat) -> nat {
        ((align - self.cursor % align) % (align as int)) as nat
    }

    /// The cursor moved up to the next multiple of `align`: the address that
    /// an allocation with this alignment hands out.
    pub open spec fn aligned_cursor(self, align: nat) -> nat {
        self.cursor + self.padding(align)
    }

    /// Whether a block of `size` bytes aligned to `align` is granted: the
    /// arena has a region, the block placed at the aligned cursor ends within
    /// the region, and the count of outstanding allocations can still grow.
    pub open spec fn admits(self, size: nat, align: nat) -> bool {
        &&& self.is_initialized()
        &&& self.aligned_cursor(align) + size <= self.end()
        &&& self.live < usize::MAX
    }

    /// Whether a block of `size` bytes placed at `addr` is aligned to `align`
    /// and lies within the unused part of the region.
    pub open spec fn fits_at(self, addr: nat, size: nat, align: nat) -> bool {
        &&& self.cursor <= addr
        &&& addr % align == 0
        &&& addr + size <= self.end()
    }

    /// The state after a request for `size` bytes aligned to `align`. A
    /// granted request moves the cursor past the block and counts it; a
    /// refused one changes nothing.
    pub open spec fn allocate(self, size: nat, align: nat) -> Arena {
        if self.admits(size, align) {
            Arena { cursor: self.aligned_cursor(align) + size, live: self.live + 1, ..self }
        } else {
            self
        }
    }

    /// Whether the block `[addr, addr + size)` lies within the part of the
    /// region that has been handed out.
    pub open spec fn in_use(self, addr: nat, size: nat) -> bool {
        self.start <= addr && addr + size <= self.cursor
    }

    /// Whether giving back the block `[addr, addr + size)` is counted: an
    /// allocation is outstanding and the block lies within the part in use.
    pub open spec fn releases(self, addr: nat, size: nat) -> bool {
        self.live > 0 && self.in_use(addr, size)
    }

    /// The state after the block `[addr, addr + size)` was given back. A
    /// counted release lowers the count by one, and rewinds the cursor to the
    /// start of the region when the count reaches zero; any other release
    /// changes nothing.
    pub open spec fn dealloc(self, addr: nat, size: nat) -> Arena {
        if self.releases(addr, size) {
            Arena {
                cursor: if self.live == 1 { self.start } else { self.cursor },
                live: (self.live - 1) as nat,
                ..self
            }
        } else {
            self
        }
    }

    /// The aligned cursor is a multiple of `align` and lies less than `align`
    /// bytes above the cursor.
    pub proof fn lemma_aligned_cursor(self, align: nat)
        requires
            align > 0,
        ensures
            self.aligned_cursor(align) % align == 0,
            self.cursor <= self.aligned_cursor(align) < self.cursor + align,
    {
        let a = align as int;
        let c = self.cursor as int;
        let r = c % a;
        let p = self.padding(align) as int;
        assert(0 <= r < a) by (nonlinear_arith)
            requires
                r == c % a,
                a > 0,
        ;
        assert(p == if r == 0 { 0 } else { a - r }) by (nonlinear_arith)
            requires
                p == (a - r) % a,
                0 <= r < a,
        ;
        assert((c + p) % a == 0) by (nonlinear_arith)
            requires
                r == c % a,
                a > 0,
                p == if r == 0 { 0 } else { a - r },
        ;
    }

    /// No multiple of `align` lies between the cursor and the aligned cursor.
    pub proof fn lemma_aligned_cursor_is_least(self, align: nat, addr: nat)
        requires
            align > 0,
            self.cursor <= addr,
            addr % align == 0,
        ensures
            self.aligned_cursor(align) <= addr,
    {
        self.lemma_aligned_cursor(align);
        let a = align as int;
        let c = self.aligned_cursor(align) as int;
        let d = addr as int;
        assert(c <= d) by (nonlinear_arith)
            requires
                c - a < d,
                d % a == 0,
                c % a == 0,
                a > 0,
        ;
    }

    /// The used and the available bytes make up the region between them.
    pub proof fn lemma_used_and_available(self)
        requires
            self.wf(),
        ensures
            self.used() + self.available() == self.size,
            self.used() <= self.size,
            self.available() <= self.size,
            self.live == 0 ==> self.used() == 0 && self.available() == self.size,
    {
    }

    /// Right after a region was taken, all of it is available and none of it
    /// is used.
    pub proof fn lemma_init_is_empty(start: nat, size: nat)
        ensures
            Arena::init(start, size).size == size,
            Arena::init(start, size).used() == 0,
            Arena::init(start, size).available() == size,
            start + size <= usize::MAX ==> Arena::init(start, size).wf(),
    {
    }

    /// For an arena that has a region and whose count can still grow, a
    /// request is granted exactly when some address at or above the cursor is
    /// a multiple of `align` and leaves room for `size` bytes before the end
    /// of the region.
    pub proof fn lemma_admits_iff_fits(self, size: nat, align: nat)
        requires
            self.wf(),
            self.is_initialized(),
            self.live < usize::MAX,
            align > 0,
        ensures
            self.admits(size, align) <==> exists|addr: nat| #[trigger]
                self.fits_at(addr, size, align),
    {
        self.lemma_aligned_cursor(align);
        if self.admits(size, align) {
            assert(self.fits_at(self.aligned_cursor(align), size, align));
        }
        if exists|addr: nat| #[trigger] self.fits_at(addr, size, align) {
            let addr = choose|addr: nat| #[trigger] self.fits_at(addr, size, align);
            self.lemma_aligned_cursor_is_least(align, addr);
        }
    }

    /// A granted request returns a non-zero multiple of `align` at or above
    /// the cursor, and the block that starts there ends at the new cursor,
    /// within the region.
    pub proof fn lemma_granted_block(self, size: nat, align: nat)
        requires
            self.wf(),
            align > 0,
            self.admits(size, align),
        ensures
            self.aligned_cursor(align) % align == 0,
            self.aligned_cursor(align) != 0,
            self.cursor <= self.aligned_cursor(align),
            self.aligned_cursor(align) + size == self.allocate(size, align).cursor,
            self.allocate(size, align).cursor <= self.end(),
            self.allocate(size, align).in_use(self.aligned_cursor(align), size),
    {
        self.lemma_aligned_cursor(align);
    }

    /// An arena with a region takes a block that starts at the region's end,
    /// and grows by the block's size without moving the cursor or changing the
    /// count; a block that starts anywhere else, such as one byte further up,
    /// is turned down and leaves the arena as it was.
    pub proof fn lemma_extension_contiguity(self, start: nat, size: nat)
        requires
            self.wf(),
            self.is_initialized(),
        ensures
            self.accepts(start) <==> start == self.start + self.size,
            self.accepts(start) ==> self.add_memory(start, size) == (Arena {
                size: self.size + size,
                ..self
            }),
            !self.accepts(start) ==> self.add_memory(start, size) == self,
            !self.accepts(self.end() + 1),
    {
    }

    /// A release that is not the last outstanding one leaves the cursor, and
    /// with it the number of used bytes, where it was.
    pub proof fn lemma_partial_release_keeps_cursor(self, addr: nat, size: nat)
        requires
            self.wf(),
            self.live > 1,
        ensures
            self.dealloc(addr, size).cursor == self.cursor,
            self.dealloc(addr, size).used() == self.used(),
            self.dealloc(addr, size).live > 0,
    {
    }

    /// The last outstanding release, of a block that lies within the part in
    /// use, gives the whole region back.
    pub proof fn lemma_last_release_reclaims(self, addr: nat, size: nat)
        requires
            self.wf(),
            self.live == 1,
            self.in_use(addr, size),
        ensures
            self.dealloc(addr, size) == Arena::init(self.start, self.size),
            self.dealloc(addr, size).used() == 0,
    {
    }
}

} // verus!
