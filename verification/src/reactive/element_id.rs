use vstd::prelude::*;

verus! {

/// Hands out the stable identifiers of mounted nodes. Identifier 0 belongs to
/// the root of every shadow tree and is never handed out.
pub struct IdAllocator {
    next: u64,
}

impl View for IdAllocator {
    type V = u64;

    /// The identifier that the next successful allocation returns.
    closed spec fn view(&self) -> u64 {
        self.next
    }
}

impl IdAllocator {
    /// An allocator at the start of an application's life.
    pub fn new() -> (ids: IdAllocator)
        ensures
            ids@ == 1,
    {
        IdAllocator { next: 1 }
    }

    /// An allocator that goes on where an earlier one stopped: `next` is the
    /// first identifier it hands out, or 1 where `next` is 0.
    pub fn starting_at(next: u64) -> (ids: IdAllocator)
        ensures
            ids@ == (if next == 0 {
                1
            } else {
                next
            }),
    {
        if next == 0 {
            IdAllocator { next: 1 }
        } else {
            IdAllocator { next }
        }
    }

    /// The next identifier, each larger than the one before. `None` once the
    /// identifier space is used up; the allocator is then left as it was.
    pub fn allocate_id(&mut self) -> (id: Option<u64>)
        ensures
            old(self)@ < u64::MAX ==> id == Some(old(self)@) && final(self)@ == old(self)@ + 1,
            old(self)@ == u64::MAX ==> id.is_none() && final(self)@ == old(self)@,
    {
        if self.next == u64::MAX {
            None
        } else {
            let id = self.next;
            self.next = id + 1;
            Some(id)
        }
    }

    /// The identifier that the next allocation would return.
    pub fn peek(&self) -> (next: u64)
        ensures
            next == self@,
    {
        self.next
    }

    /// Starts over, as at an application restart. Identifiers handed out
    /// before the reset may be handed out again.
    pub fn reset(&mut self)
        ensures
            final(self)@ == 1,
    {
        self.next = 1;
    }
}

} // verus!
