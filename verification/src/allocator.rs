//! The inode allocator: a counter that hands out each id once.

use vstd::prelude::*;

verus! {

/// Issues inode ids in strictly increasing order. Its view is the id that it
/// issues next; every id below that may have been issued.
pub struct InodeAllocator {
    next: u64,
}

impl View for InodeAllocator {
    type V = u64;

    closed spec fn view(&self) -> u64 {
        self.next
    }
}

impl InodeAllocator {
    /// Returns an allocator that issues `first` and then the ids above it.
    pub fn new(first: u64) -> (allocator: InodeAllocator)
        ensures
            allocator@ == first,
    {
        InodeAllocator { next: first }
    }

    /// Returns the id that the next call of `next` issues.
    pub fn peek(&self) -> (id: u64)
        ensures
            id == self@,
    {
        self.next
    }

    /// Issues an id that was not issued before: the previous one plus one.
    pub fn next(&mut self) -> (id: u64)
        requires
            old(self)@ < u64::MAX,
        ensures
            id == old(self)@,
            final(self)@ == id + 1,
    {
        let id: u64 = self.next;
        self.next = id + 1;
        id
    }
}

} // verus!
