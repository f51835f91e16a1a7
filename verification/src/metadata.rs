//! Metadata access for the plan builder: a handle on the catalog.

use vstd::prelude::*;
use crate::catalog::{catv, Catalog};

verus! {

/// The builder's window onto label metadata.
#[derive(Debug)]
pub struct Metadata {
    pub cat: Box<Catalog>,
}

impl Metadata {
    /// Metadata over a catalog.
    pub fn new(catalog: Box<Catalog>) -> (r: Box<Metadata>)
        ensures
            catv(*r.cat) == catv(*catalog),
    {
        Box::new(Metadata { cat: catalog })
    }
}

} // verus!
