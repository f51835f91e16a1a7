//! Counters handing out dense identifiers from zero.

use vstd::prelude::*;

verus! {

/// A counter for single-owner use.
#[derive(Debug)]
pub struct IdGen {
    pub current: u64,
}

impl IdGen {
    /// A counter at zero.
    pub fn new() -> (r: IdGen)
        ensures
            r.current == 0,
    {
        IdGen { current: 0 }
    }

    /// The next identifier: each call returns the count of calls before
    /// it.
    pub fn next(&mut self) -> (r: u64)
        requires
            old(self).current < u64::MAX,
        ensures
            r == old(self).current,
            final(self).current == old(self).current + 1,
    {
        self.current = self.current + 1;
        self.current - 1
    }
}

/// A counter of the same behaviour for contexts that hold it behind an
/// exclusive reference.
#[derive(Debug)]
pub struct IdGenSync {
    pub current: u64,
}

impl IdGenSync {
    /// A counter at zero.
    pub fn new() -> (r: IdGenSync)
        ensures
            r.current == 0,
    {
        IdGenSync { current: 0 }
    }

    /// The next identifier: each call returns the count of calls before
    /// it.
    pub fn next(&mut self) -> (r: u64)
        requires
            old(self).current < u64::MAX,
        ensures
            r == old(self).current,
            final(self).current == old(self).current + 1,
    {
        let r = self.current;
        self.current = self.current + 1;
        r
    }
}

} // verus!
