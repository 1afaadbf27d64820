//! Handles to nodes that live only while one callback runs.
//!
//! A handle is a number, issued once. The arena of a rewrite knows which
//! handles are live; a handle whose anchor was released is stale for good,
//! whatever is wrapped or released afterwards.

use vstd::prelude::*;

verus! {

/// The handles of one rewrite.
pub struct HandleArena {
    live: Vec<u64>,
    next: u64,
}

/// The word that access to a stale handle fails with.
#[derive(Clone, Copy, Debug, PartialEq, Eq, Structural)]
pub struct StaleHandleError;

impl StaleHandleError {
    /// What the caller is told.
    pub fn message(&self) -> (r: &'static str)
        ensures
            r@ == "The object has been freed and can't be used anymore."@,
    {
        "The object has been freed and can't be used anymore."
    }
}

/// What keeps a handle live: the callback owns it and releases it when it
/// returns.
pub struct Anchor {
    generation: u64,
}

/// A handle to a node. It can be copied and kept, and tells in any later
/// callback that it is stale.
#[derive(Clone, Copy)]
pub struct NativeRefWrap {
    generation: u64,
}

impl Anchor {
    /// The anchor of the handle with this number.
    pub fn new(generation: u64) -> (r: Anchor)
        ensures
            r.generation() == generation,
    {
        Anchor { generation }
    }

    /// The number of the handle.
    pub closed spec fn generation(&self) -> u64 {
        self.generation
    }
}

impl HandleArena {
    /// Live handles were issued, and none is listed twice.
    pub closed spec fn wf(&self) -> bool {
        &&& forall|i: int| 0 <= i < self.live@.len() ==> self.live@[i] < self.next
        &&& forall|i: int, j: int|
            0 <= i < j < self.live@.len() ==> self.live@[i] != self.live@[j]
    }

    /// Whether the handle with this number is live.
    pub closed spec fn is_live(&self, generation: u64) -> bool {
        self.live@.contains(generation)
    }

    /// Whether the handle with this number was ever issued.
    pub closed spec fn issued(&self, generation: u64) -> bool {
        generation < self.next
    }

    /// Whether the arena can still issue a handle.
    pub closed spec fn can_issue(&self) -> bool {
        self.next < u64::MAX
    }

    /// Only an issued handle is live.
    pub proof fn lemma_live_was_issued(&self, generation: u64)
        requires
            self.wf(),
            self.is_live(generation),
        ensures
            self.issued(generation),
    {
    }

    /// An arena without any handle.
    pub fn new() -> (r: HandleArena)
        ensures
            r.wf(),
            r.can_issue(),
            forall|g: u64| !r.is_live(g) && !r.issued(g),
    {
        HandleArena { live: Vec::new(), next: 0 }
    }

    /// Ends the life of the handle that `anchor` keeps: it is stale from now
    /// on. Every other handle stays as it is.
    pub fn release(&mut self, anchor: Anchor)
        requires
            old(self).wf(),
        ensures
            final(self).wf(),
            !final(self).is_live(anchor.generation()),
            forall|g: u64|
                g != anchor.generation() ==> final(self).is_live(g) == old(self).is_live(g),
            forall|g: u64| final(self).issued(g) == old(self).issued(g),
    {
        let mut i: usize = 0;
        while i < self.live.len()
            invariant
                i <= self.live.len(),
                self.wf(),
                self.live == old(self).live,
                self.next == old(self).next,
                forall|j: int| 0 <= j < i ==> self.live@[j] != anchor.generation,
            decreases self.live.len() - i,
        {
            if self.live[i] == anchor.generation {
                let ghost before = self.live@;
                self.live.remove(i);
                assert(self.live@ =~= before.remove(i as int));
                assert forall|g: u64| g != anchor.generation() implies self.is_live(g)
                    == old(self).is_live(g) by {
                    if before.contains(g) {
                        let k = choose|k: int| 0 <= k < before.len() && before[k] == g;
                        if k < i {
                            assert(self.live@[k] == g);
                        } else {
                            assert(self.live@[k - 1] == g);
                        }
                    }
                }
                assert(!self.live@.contains(anchor.generation)) by {
                    if self.live@.contains(anchor.generation) {
                        let k = choose|k: int|
                            0 <= k < self.live@.len() && self.live@[k] == anchor.generation;
                        if k >= i {
                            assert(before[k + 1] == anchor.generation);
                            assert(before[i as int] == anchor.generation);
                        }
                    }
                }
                return ;
            }
            i += 1;
        }
    }
}

impl NativeRefWrap {
    /// The number of the handle.
    pub closed spec fn generation(&self) -> u64 {
        self.generation
    }

    /// Issues a handle and the anchor that keeps it live. The handle is new:
    /// it was never issued before. An arena that has issued every number
    /// hands out a handle that is stale from the start.
    pub fn wrap(arena: &mut HandleArena) -> (r: (NativeRefWrap, Anchor))
        requires
            old(arena).wf(),
        ensures
            final(arena).wf(),
            r.0.generation() == r.1.generation(),
            !old(arena).issued(r.0.generation()),
            !old(arena).is_live(r.0.generation()),
            final(arena).is_live(r.0.generation()) == old(arena).can_issue(),
            forall|g: u64|
                g != r.0.generation() ==> final(arena).is_live(g) == old(arena).is_live(g),
            forall|g: u64| old(arena).issued(g) ==> final(arena).issued(g),
    {
        let generation = arena.next;
        assert(!arena.live@.contains(generation)) by {
            if arena.live@.contains(generation) {
                let k = choose|k: int| 0 <= k < arena.live@.len() && arena.live@[k] == generation;
                assert(arena.live@[k] < arena.next);
            }
        }
        if generation < u64::MAX {
            let ghost before = arena.live@;
            arena.live.push(generation);
            arena.next = generation + 1;
            assert(arena.live@[before.len() as int] == generation);
            assert forall|g: u64| g != generation implies arena.is_live(g) == old(arena).is_live(
                g,
            ) by {
                if before.contains(g) {
                    let k = choose|k: int| 0 <= k < before.len() && before[k] == g;
                    assert(arena.live@[k] == g);
                }
            }
        }
        (NativeRefWrap { generation }, Anchor::new(generation))
    }

    /// Whether the handle is stale.
    pub fn is_poisoned(&self, arena: &HandleArena) -> (r: bool)
        ensures
            r == !arena.is_live(self.generation()),
    {
        let mut i: usize = 0;
        while i < arena.live.len()
            invariant
                i <= arena.live.len(),
                forall|j: int| 0 <= j < i ==> arena.live@[j] != self.generation,
            decreases arena.live.len() - i,
        {
            if arena.live[i] == self.generation {
                return false;
            }
            i += 1;
        }
        true
    }

    /// Fails on a stale handle.
    pub fn assert_not_poisoned(&self, arena: &HandleArena) -> (r: Result<(), StaleHandleError>)
        ensures
            r is Ok == arena.is_live(self.generation()),
    {
        if self.is_poisoned(arena) {
            Err(StaleHandleError)
        } else {
            Ok(())
        }
    }
}

/// A released handle is stale, and a stale handle that was issued stays
/// stale when another handle is wrapped: the new handle has a number that
/// was never issued.
pub proof fn lemma_stale_for_good(
    before: HandleArena,
    after: HandleArena,
    fresh: NativeRefWrap,
    stale: NativeRefWrap,
)
    requires
        before.issued(stale.generation()),
        !before.is_live(stale.generation()),
        !before.issued(fresh.generation()),
        forall|g: u64| g != fresh.generation() ==> after.is_live(g) == before.is_live(g),
    ensures
        !after.is_live(stale.generation()),
{
}

} // verus!
