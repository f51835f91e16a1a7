//! The catalog: label descriptors resolvable by id or name, with an
//! explicit not-found outcome. An in-memory capability, injectable
//! wherever label metadata is needed without a live store.

use vstd::prelude::*;
use crate::types::str_eq;

verus! {

/// A name a label can carry.
pub trait LabelName {
    fn string(&self) -> String;
}

/// One label: its id and its name.
#[derive(Debug)]
pub struct LabelDesc {
    pub id: u64,
    pub name: String,
}

/// A property descriptor; labels are the only populated metadata yet.
#[derive(Debug)]
pub struct PropDesc {}

/// Why a catalog lookup failed.
#[derive(Debug, Clone, Copy, PartialEq, Eq, Structural)]
pub enum CatalogError {
    ObjectNotExists,
    Unknown,
}

/// The label metadata: descriptors in creation order, ids densely
/// assigned from zero.
#[derive(Debug)]
pub struct Catalog {
    pub version: u64,
    pub labels: Vec<LabelDesc>,
}

/// The shape of a catalog: its labels' ids and names in order.
pub open spec fn catv(c: Catalog) -> Seq<(u64, Seq<char>)> {
    Seq::new(c.labels@.len(), |i: int| (c.labels@[i].id, c.labels@[i].name@))
}

/// The first descriptor under an id, if any.
pub open spec fn sp_label_by_id(labels: Seq<(u64, Seq<char>)>, id: u64) -> Option<
    (u64, Seq<char>),
>
    decreases labels.len(),
{
    if labels.len() == 0 {
        None
    } else if labels[0].0 == id {
        Some(labels[0])
    } else {
        sp_label_by_id(labels.drop_first(), id)
    }
}

/// The first descriptor under a name, if any.
pub open spec fn sp_label_by_name(labels: Seq<(u64, Seq<char>)>, name: Seq<char>) -> Option<
    (u64, Seq<char>),
>
    decreases labels.len(),
{
    if labels.len() == 0 {
        None
    } else if labels[0].1 == name {
        Some(labels[0])
    } else {
        sp_label_by_name(labels.drop_first(), name)
    }
}

impl Catalog {
    /// An empty catalog.
    pub fn new() -> (r: Catalog)
        ensures
            catv(r) == Seq::<(u64, Seq<char>)>::empty(),
            r.version == 0,
    {
        let r = Catalog { version: 0, labels: Vec::new() };
        proof {
            assert(catv(r) =~= Seq::<(u64, Seq<char>)>::empty());
        }
        r
    }

    /// The label with the given id, or not-found.
    pub fn resolve_label_by_id(&self, id: u64) -> (r: Result<&LabelDesc, CatalogError>)
        ensures
            match r {
                Ok(d) => sp_label_by_id(catv(*self), id) == Some((d.id, d.name@)),
                Err(e) => sp_label_by_id(catv(*self), id) is None && e
                    == CatalogError::ObjectNotExists,
            },
    {
        let n = self.labels.len();
        let mut i: usize = 0;
        proof {
            assert(catv(*self).skip(0) =~= catv(*self));
        }
        while i < n
            invariant
                n == self.labels@.len(),
                i <= n,
                sp_label_by_id(catv(*self), id) == sp_label_by_id(catv(*self).skip(i as int), id),
            decreases n - i,
        {
            proof {
                assert(catv(*self).skip(i as int)[0] == (
                    self.labels@[i as int].id,
                    self.labels@[i as int].name@,
                ));
                assert(catv(*self).skip(i as int).drop_first() =~= catv(*self).skip(i + 1));
            }
            if self.labels[i].id == id {
                return Ok(&self.labels[i]);
            }
            i = i + 1;
        }
        proof {
            assert(catv(*self).skip(n as int) =~= Seq::<(u64, Seq<char>)>::empty());
        }
        Err(CatalogError::ObjectNotExists)
    }

    /// The label with the given name, or not-found.
    pub fn resolve_label_by_name(&self, name: &str) -> (r: Result<&LabelDesc, CatalogError>)
        ensures
            match r {
                Ok(d) => sp_label_by_name(catv(*self), name@) == Some((d.id, d.name@)),
                Err(e) => sp_label_by_name(catv(*self), name@) is None && e
                    == CatalogError::ObjectNotExists,
            },
    {
        let n = self.labels.len();
        let mut i: usize = 0;
        proof {
            assert(catv(*self).skip(0) =~= catv(*self));
        }
        while i < n
            invariant
                n == self.labels@.len(),
                i <= n,
                sp_label_by_name(catv(*self), name@) == sp_label_by_name(
                    catv(*self).skip(i as int),
                    name@,
                ),
            decreases n - i,
        {
            proof {
                assert(catv(*self).skip(i as int)[0] == (
                    self.labels@[i as int].id,
                    self.labels@[i as int].name@,
                ));
                assert(catv(*self).skip(i as int).drop_first() =~= catv(*self).skip(i + 1));
            }
            if str_eq(self.labels[i].name.as_str(), name) {
                return Ok(&self.labels[i]);
            }
            i = i + 1;
        }
        proof {
            assert(catv(*self).skip(n as int) =~= Seq::<(u64, Seq<char>)>::empty());
        }
        Err(CatalogError::ObjectNotExists)
    }

    /// Creates a label under the next id and hands its descriptor back.
    pub fn create_label(&mut self, name: String) -> (r: Result<LabelDesc, CatalogError>)
        requires
            old(self).labels@.len() < u64::MAX,
        ensures
            match r {
                Ok(d) => catv(*final(self)) == catv(*old(self)).push((d.id, d.name@)) && d.id
                    == old(self).labels@.len() && d.name@ == name@,
                Err(_) => false,
            },
    {
        let id = self.labels.len() as u64;
        let desc = LabelDesc { id, name };
        let out = LabelDesc { id, name: desc.name.clone() };
        self.labels.push(desc);
        proof {
            assert(catv(*self) =~= catv(*old(self)).push(
                (self.labels@.last().id, self.labels@.last().name@),
            ));
        }
        Ok(out)
    }
}

} // verus!
