//! The sequencer: the single counter that hands every matched result its
//! place in the output order.

use vstd::prelude::*;

verus! {

/// A fetch-and-increment counter that starts at 0.
///
/// Each call of [`Sequencer::issue`] hands out the number of calls made
/// before it, so the values issued are dense, start at 0 and are never
/// repeated. Exclusive access (`&mut self`) is what makes the read and
/// the increment one indivisible step; callers that share a sequencer
/// between threads keep it behind a lock.
pub struct Sequencer {
    next: u64,
}

impl Sequencer {
    /// How many ids have been issued so far; also the next id to be issued.
    pub closed spec fn issued(&self) -> nat {
        self.next as nat
    }

    /// A sequencer that has issued nothing.
    pub fn new() -> (s: Sequencer)
        ensures
            s.issued() == 0,
    {
        Sequencer { next: 0 }
    }

    /// Hands out the next id and advances the counter by one.
    pub fn issue(&mut self) -> (id: u64)
        requires
            old(self).issued() < u64::MAX,
        ensures
            id == old(self).issued(),
            final(self).issued() == old(self).issued() + 1,
    {
        let id = self.next;
        self.next = self.next + 1;
        id
    }

    /// The number of ids issued so far.
    pub fn count(&self) -> (n: u64)
        ensures
            n == self.issued(),
    {
        self.next
    }
}

} // verus!
