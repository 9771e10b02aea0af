//! Sequences of calls on an arena, and what holds of every such sequence.

use vstd::prelude::*;

use crate::arena::Arena;

verus! {

/// One call on an arena, with its arguments.
pub enum Call {
    /// Take `[start, start + size)` as the region.
    Init { start: nat, size: nat },
    /// Offer the block `[start, start + size)`.
    AddMemory { start: nat, size: nat },
    /// Ask for `size` bytes aligned to `align`.
    Allocate { size: nat, align: nat },
    /// Give back the block `[addr, addr + size)`.
    Dealloc { addr: nat, size: nat },
}

impl Call {
    /// Whether the arguments are ones that the allocator can be called with:
    /// a block lies within the address space, and an alignment is not zero.
    pub open spec fn valid(self) -> bool {
        match self {
            Call::Init { start, size } => start + size <= usize::MAX,
            Call::AddMemory { start, size } => start + size <= usize::MAX,
            Call::Allocate { size, align } => align > 0,
            Call::Dealloc { .. } => true,
        }
    }

    /// Whether the call gives back a block that lies within the part of `s`
    /// that has been handed out.
    pub open spec fn releases_block_of(self, s: Arena) -> bool {
        self matches Call::Dealloc { addr, size } && s.in_use(addr, size)
    }
}

/// The state that `call` leaves an arena in.
pub open spec fn step(s: Arena, call: Call) -> Arena {
    match call {
        Call::Init { start, size } => Arena::init(start, size),
        Call::AddMemory { start, size } => s.add_memory(start, size),
        Call::Allocate { size, align } => s.allocate(size, align),
        Call::Dealloc { addr, size } => s.dealloc(addr, size),
    }
}

/// The state that the calls of `calls`, made in order, leave an arena in.
pub open spec fn run(s: Arena, calls: Seq<Call>) -> Arena
    decreases calls.len(),
{
    if calls.len() == 0 {
        s
    } else {
        step(run(s, calls.drop_last()), calls.last())
    }
}

/// For each request of `calls` that is granted, in order, the call that gives
/// the granted block back.
pub open spec fn matching_releases(s: Arena, calls: Seq<Call>) -> Seq<Call>
    decreases calls.len(),
{
    if calls.len() == 0 {
        Seq::empty()
    } else {
        let before = run(s, calls.drop_last());
        let earlier = matching_releases(s, calls.drop_last());
        match calls.last() {
            Call::Allocate { size, align } => if before.admits(size, align) {
                earlier.push(Call::Dealloc { addr: before.aligned_cursor(align), size })
            } else {
                earlier
            },
            _ => earlier,
        }
    }
}

/// Every call keeps the arena's invariant.
pub proof fn lemma_step_preserves_wf(s: Arena, call: Call)
    requires
        s.wf(),
        call.valid(),
    ensures
        step(s, call).wf(),
{
    if let Call::Allocate { size, align } = call {
        s.lemma_aligned_cursor(align);
    }
}

/// Every sequence of calls keeps the arena's invariant.
pub proof fn lemma_run_preserves_wf(s: Arena, calls: Seq<Call>)
    requires
        s.wf(),
        forall|i: int| 0 <= i < calls.len() ==> (#[trigger] calls[i]).valid(),
    ensures
        run(s, calls).wf(),
    decreases calls.len(),
{
    if calls.len() > 0 {
        lemma_run_preserves_wf(s, calls.drop_last());
        lemma_step_preserves_wf(run(s, calls.drop_last()), calls.last());
    }
}

/// A call that leaves an allocation outstanding does not lower the number of
/// used bytes.
pub proof fn lemma_used_monotonic_while_live(s: Arena, call: Call)
    requires
        s.wf(),
        call.valid(),
        step(s, call).live > 0,
    ensures
        step(s, call).used() >= s.used(),
{
    lemma_step_preserves_wf(s, call);
}

/// Over a sequence of calls each of which leaves an allocation outstanding,
/// the number of used bytes does not fall.
pub proof fn lemma_used_monotonic_over_run(s: Arena, calls: Seq<Call>)
    requires
        s.wf(),
        forall|i: int| 0 <= i < calls.len() ==> (#[trigger] calls[i]).valid(),
        forall|k: int| 0 < k <= calls.len() ==> (#[trigger] run(s, calls.take(k))).live > 0,
    ensures
        run(s, calls).used() >= s.used(),
    decreases calls.len(),
{
    if calls.len() > 0 {
        let init = calls.drop_last();
        assert forall|k: int| 0 < k <= init.len() implies (#[trigger] run(s, init.take(k))).live
            > 0 by {
            assert(init.take(k) =~= calls.take(k));
        }
        lemma_used_monotonic_over_run(s, init);
        lemma_run_preserves_wf(s, init);
        assert(calls.take(calls.len() as int) =~= calls);
        assert(run(s, calls.take(calls.len() as int)).live > 0);
        lemma_used_monotonic_while_live(run(s, init), calls.last());
    }
}

/// Whether every call of `calls` is a request with a non-zero alignment.
pub open spec fn all_requests(calls: Seq<Call>) -> bool {
    forall|i: int| 0 <= i < calls.len() ==> (#[trigger] calls[i]) is Allocate && calls[i].valid()
}

/// Whether every call of `calls` gives back a block that lies within the part
/// of `s` that has been handed out.
pub open spec fn all_releases_in_use(s: Arena, calls: Seq<Call>) -> bool {
    forall|i: int| 0 <= i < calls.len() ==> (#[trigger] calls[i]).releases_block_of(s)
}

/// A sequence of requests keeps the region, moves the cursor up or leaves it,
/// and raises the count by the number of requests that were granted; every
/// granted block lies within the part that has been handed out afterwards.
pub proof fn lemma_requests(s: Arena, calls: Seq<Call>)
    requires
        s.wf(),
        all_requests(calls),
    ensures
        run(s, calls).wf(),
        run(s, calls).start == s.start,
        run(s, calls).size == s.size,
        run(s, calls).cursor >= s.cursor,
        run(s, calls).live == s.live + matching_releases(s, calls).len(),
        all_releases_in_use(run(s, calls), matching_releases(s, calls)),
    decreases calls.len(),
{
    if calls.len() > 0 {
        let before = run(s, calls.drop_last());
        let earlier = matching_releases(s, calls.drop_last());
        lemma_requests(s, calls.drop_last());
        lemma_step_preserves_wf(before, calls.last());
        let after = run(s, calls);
        let given = matching_releases(s, calls);
        if let Call::Allocate { size, align } = calls.last() {
            before.lemma_aligned_cursor(align);
            assert forall|i: int| 0 <= i < given.len() implies
                (#[trigger] given[i]).releases_block_of(after) by {
                if i < earlier.len() {
                    assert(given[i] == earlier[i]);
                }
            }
        }
    }
}

/// Releases of blocks in use, no more of them than there are outstanding
/// allocations, lower the count by their number; the cursor stays where it is
/// until the count reaches zero, and then returns to the start of the region.
pub proof fn lemma_releases(s: Arena, calls: Seq<Call>)
    requires
        s.wf(),
        all_releases_in_use(s, calls),
        calls.len() <= s.live,
    ensures
        run(s, calls) == (Arena {
            cursor: if calls.len() == s.live {
                s.start
            } else {
                s.cursor
            },
            live: (s.live - calls.len()) as nat,
            ..s
        }),
    decreases calls.len(),
{
    if calls.len() > 0 {
        lemma_releases(s, calls.drop_last());
        assert(calls.last() == calls[calls.len() - 1]);
    }
}

/// After any sequence of requests on an arena with nothing outstanding,
/// followed by one release for each granted block, in any order, the arena is
/// back in the state it started from: no byte is used, and the next request
/// is served from the start of the region.
pub proof fn lemma_full_reclamation(s: Arena, requests: Seq<Call>, releases: Seq<Call>)
    requires
        s.wf(),
        s.live == 0,
        all_requests(requests),
        releases.to_multiset() =~= matching_releases(s, requests).to_multiset(),
    ensures
        run(run(s, requests), releases) == s,
        run(run(s, requests), releases).used() == 0,
        run(run(s, requests), releases).cursor == s.start,
{
    let given = matching_releases(s, requests);
    let full = run(s, requests);
    lemma_requests(s, requests);
    releases.to_multiset_ensures();
    given.to_multiset_ensures();
    assert forall|i: int| 0 <= i < releases.len() implies
        (#[trigger] releases[i]).releases_block_of(full) by {
        assert(releases.contains(releases[i]));
        assert(given.to_multiset().count(releases[i]) > 0);
        assert(given.contains(releases[i]));
        let j = choose|j: int| 0 <= j < given.len() && given[j] == releases[i];
        assert(given[j] == releases[i]);
    }
    lemma_releases(full, releases);
}

} // verus!
