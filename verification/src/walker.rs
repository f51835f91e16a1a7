//! A rewriting visitor over owned trees, for callers to implement.

use vstd::prelude::*;

verus! {

/// A pass that consumes a tree and hands back its rewriting.
pub trait Walker<T> {
    fn walk(&mut self, t: T) -> T;
}

} // verus!
