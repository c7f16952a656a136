//! The identity allocator: the source of session ids.

use vstd::prelude::*;

verus! {

/// Hands out session ids: 1, 2, 3 and so on, each of them once.
///
/// An id that was handed out is never handed out again, whatever became of
/// the session that got it.
pub struct IdAllocator {
    /// How many ids were handed out so far; they are `1..=issued`.
    issued: usize,
}

impl IdAllocator {
    /// The id that the next call of `next` returns.
    pub closed spec fn next_id(&self) -> nat {
        (self.issued + 1) as nat
    }

    /// Whether `id` was handed out already.
    pub open spec fn has_issued(&self, id: nat) -> bool {
        1 <= id < self.next_id()
    }

    /// Whether every id that the machine can hold was handed out.
    pub open spec fn is_exhausted(&self) -> bool {
        self.next_id() > usize::MAX
    }

    /// An allocator that has handed out nothing: its first id is 1.
    pub fn new() -> (ids: Self)
        ensures
            ids.next_id() == 1,
    {
        IdAllocator { issued: 0 }
    }

    /// Whether every id that the machine can hold was handed out, so that
    /// `next` can no longer be called.
    pub fn exhausted(&self) -> (exhausted: bool)
        ensures
            exhausted == self.is_exhausted(),
    {
        self.issued == usize::MAX
    }

    /// Hands out an id that was never handed out before.
    pub fn next(&mut self) -> (id: usize)
        requires
            !old(self).is_exhausted(),
        ensures
            id == old(self).next_id(),
            id >= 1,
            !old(self).has_issued(id as nat),
            final(self).next_id() == id + 1,
    {
        self.issued = self.issued + 1;
        self.issued
    }
}

} // verus!
