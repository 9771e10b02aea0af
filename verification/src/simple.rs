//! The executable bump allocator.

use vstd::prelude::*;

use crate::arena::Arena;
use crate::error::{AllocError, AllocResult};

verus! {

/// A bump allocator over one contiguous region of memory.
///
/// Blocks are carved off the front of the unused part of the region. Blocks
/// that are given back are only counted; their bytes become available again
/// when the last outstanding block has been given back.
pub struct SimpleByteAllocator {
    start: usize,
    size: usize,
    next: usize,
    allocations: usize,
}

impl View for SimpleByteAllocator {
    type V = Arena;

    closed spec fn view(&self) -> Arena {
        Arena {
            start: self.start as nat,
            size: self.size as nat,
            cursor: self.next as nat,
            live: self.allocations as nat,
        }
    }
}

impl SimpleByteAllocator {
    /// What holds of every allocator at all times: its state is a
    /// well-formed arena.
    #[verifier::type_invariant]
    pub open spec fn inv(self) -> bool {
        self@.wf()
    }

    /// Makes an allocator that has no region yet.
    pub fn new() -> (a: Self)
        ensures
            a@ == Arena::fresh(),
            a@.wf(),
    {
        Self { start: 0, size: 0, next: 0, allocations: 0 }
    }

    /// Takes `[start, start + size)` as the managed region, whatever the
    /// allocator held before. Nothing is handed out afterwards, and blocks
    /// that were outstanding are forgotten.
    pub fn init(&mut self, start: usize, size: usize)
        requires
            start + size <= usize::MAX,
        ensures
            final(self)@ == Arena::init(start as nat, size as nat),
            final(self)@.wf(),
    {
        *self = Self { start, size, next: start, allocations: 0 };
    }

    /// Offers the block `[start, start + size)` to the allocator.
    ///
    /// An allocator without a region takes the block as its region. One with
    /// a region takes the block only if it starts where the region ends; the
    /// region then grows by `size` bytes, and the cursor and the count of
    /// outstanding allocations stay as they are. Any other block is turned
    /// down with `InvalidParam`, and nothing changes.
    pub fn add_memory(&mut self, start: usize, size: usize) -> (r: AllocResult)
        requires
            start + size <= usize::MAX,
        ensures
            final(self)@ == old(self)@.add_memory(start as nat, size as nat),
            final(self)@.wf(),
            match r {
                Ok(_) => old(self)@.accepts(start as nat),
                Err(e) => e == AllocError::InvalidParam && !old(self)@.accepts(start as nat),
            },
            final(self)@.live > 0 ==> final(self)@.used() == old(self)@.used(),
    {
        proof {
            use_type_invariant(&*self);
        }
        if self.start == 0 {
            self.init(start, size);
            return Ok(());
        }
        if start == self.start + self.size {
            self.size = self.size + size;
            Ok(())
        } else {
            Err(AllocError::InvalidParam)
        }
    }

    /// Asks for a block of `size` bytes whose address is a multiple of
    /// `align`.
    ///
    /// The block is placed at the cursor moved up to the next multiple of
    /// `align`. It is granted exactly when the allocator has a region, the
    /// block ends within the region, and the count of outstanding allocations
    /// can still grow. A granted request returns the block's address, moves
    /// the cursor to the block's end and raises the count by one. A refused
    /// request reports `NoMemory` and changes nothing.
    pub fn allocate(&mut self, size: usize, align: usize) -> (r: AllocResult<usize>)
        requires
            align > 0,
        ensures
            final(self)@ == old(self)@.allocate(size as nat, align as nat),
            final(self)@.wf(),
            match r {
                Ok(addr) => {
                    &&& old(self)@.admits(size as nat, align as nat)
                    &&& addr == old(self)@.aligned_cursor(align as nat)
                    &&& addr % align == 0
                    &&& addr != 0
                    &&& old(self)@.cursor <= addr
                    &&& addr + size == final(self)@.cursor
                },
                Err(e) => e == AllocError::NoMemory && !old(self)@.admits(size as nat, align as nat),
            },
            final(self)@.used() >= old(self)@.used(),
    {
        proof {
            use_type_invariant(&*self);
            self@.lemma_aligned_cursor(align as nat);
        }
        let padding = (align - self.next % align) % align;
        let available = self.size - (self.next - self.start);
        let has_room = padding <= available && size <= available - padding;
        if self.start != 0 && self.allocations < usize::MAX && has_room {
            let addr = self.next + padding;
            self.allocations = self.allocations + 1;
            self.next = addr + size;
            Ok(addr)
        } else {
            Err(AllocError::NoMemory)
        }
    }

    /// Gives back the block of `size` bytes at `addr`.
    ///
    /// The release is counted when an allocation is outstanding and the block
    /// lies within the part of the region that has been handed out; the last
    /// counted release rewinds the cursor to the start of the region. Any
    /// other release is ignored. The alignment plays no part.
    pub fn dealloc(&mut self, addr: usize, size: usize, _align: usize)
        ensures
            final(self)@ == old(self)@.dealloc(addr as nat, size as nat),
            final(self)@.wf(),
            final(self)@.live > 0 ==> final(self)@.cursor == old(self)@.cursor,
            final(self)@.live == 0 ==> final(self)@.used() == 0,
    {
        proof {
            use_type_invariant(&*self);
        }
        let in_use = self.start <= addr && addr <= self.next && size <= self.next - addr;
        if self.allocations > 0 && in_use {
            if self.allocations == 1 {
                self.next = self.start;
            }
            self.allocations = self.allocations - 1;
        }
    }

    /// Number of bytes under management.
    pub fn total_bytes(&self) -> (n: usize)
        ensures
            n == self@.size,
    {
        self.size
    }

    /// Number of bytes between the start of the region and the cursor,
    /// padding included.
    pub fn used_bytes(&self) -> (n: usize)
        ensures
            n == self@.used(),
    {
        proof {
            use_type_invariant(self);
        }
        self.next - self.start
    }

    /// Number of bytes between the cursor and the end of the region.
    pub fn available_bytes(&self) -> (n: usize)
        ensures
            n == self@.available(),
    {
        proof {
            use_type_invariant(self);
        }
        self.size - (self.next - self.start)
    }
}

} // verus!
