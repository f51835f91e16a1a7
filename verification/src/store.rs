//! Tables handed to execution as plain values: what one unfiltered read
//! of each backing table returned, plus the label-to-table mapping.

use vstd::prelude::*;
use crate::types::{Value, SpecValue, vview, str_eq};

verus! {

/// One materialized table: column names and rows of cell values.
#[derive(Debug)]
pub struct Table {
    pub columns: Vec<String>,
    pub rows: Vec<Vec<Value>>,
}

/// The shape of a table.
pub struct SpecTable {
    pub columns: Seq<Seq<char>>,
    pub rows: Seq<Seq<SpecValue>>,
}

/// The shape of one row of cells.
pub open spec fn cellsv(row: Seq<Value>) -> Seq<SpecValue> {
    Seq::new(row.len(), |i: int| vview(row[i]))
}

/// The shape of a table.
pub open spec fn tablev(t: Table) -> SpecTable {
    SpecTable {
        columns: Seq::new(t.columns@.len(), |i: int| t.columns@[i]@),
        rows: Seq::new(t.rows@.len(), |i: int| cellsv(t.rows@[i]@)),
    }
}

/// Everything execution reads from the backing store: the materialized
/// tables by name, and the label-to-table mapping.
#[derive(Debug)]
pub struct Store {
    pub tables: Vec<(String, Table)>,
    pub label_table_map: Vec<(String, String)>,
}

/// The shape of a store.
pub struct SpecStore {
    pub tables: Seq<(Seq<char>, SpecTable)>,
    pub label_table_map: Seq<(Seq<char>, Seq<char>)>,
}

/// The shape of a store.
pub open spec fn storev(s: Store) -> SpecStore {
    SpecStore {
        tables: Seq::new(s.tables@.len(), |i: int| (s.tables@[i].0@, tablev(s.tables@[i].1))),
        label_table_map: Seq::new(
            s.label_table_map@.len(),
            |i: int| (s.label_table_map@[i].0@, s.label_table_map@[i].1@),
        ),
    }
}

/// The first table under `name`, if any.
pub open spec fn sp_table_get(tables: Seq<(Seq<char>, SpecTable)>, name: Seq<char>) -> Option<
    SpecTable,
>
    decreases tables.len(),
{
    if tables.len() == 0 {
        None
    } else if tables[0].0 == name {
        Some(tables[0].1)
    } else {
        sp_table_get(tables.drop_first(), name)
    }
}

/// The table a label resolves to: the mapped name, or the label itself on
/// a miss.
pub open spec fn sp_resolve(map: Seq<(Seq<char>, Seq<char>)>, label: Seq<char>) -> Seq<char>
    decreases map.len(),
{
    if map.len() == 0 {
        label
    } else if map[0].0 == label {
        map[0].1
    } else {
        sp_resolve(map.drop_first(), label)
    }
}

impl Store {
    /// A store with no tables and no mapping.
    pub fn new() -> (r: Store)
        ensures
            storev(r).tables == Seq::<(Seq<char>, SpecTable)>::empty(),
            storev(r).label_table_map == Seq::<(Seq<char>, Seq<char>)>::empty(),
    {
        let r = Store { tables: Vec::new(), label_table_map: Vec::new() };
        proof {
            assert(storev(r).tables =~= Seq::<(Seq<char>, SpecTable)>::empty());
            assert(storev(r).label_table_map =~= Seq::<(Seq<char>, Seq<char>)>::empty());
        }
        r
    }

    /// Adds a table under `name`; an earlier table of the same name stays
    /// in front and keeps winning lookups.
    pub fn add_table(&mut self, name: String, table: Table)
        ensures
            storev(*final(self)).tables == storev(*old(self)).tables.push(
                (name@, tablev(table)),
            ),
            storev(*final(self)).label_table_map == storev(*old(self)).label_table_map,
    {
        self.tables.push((name, table));
        proof {
            assert(storev(*self).tables =~= storev(*old(self)).tables.push(
                (self.tables@.last().0@, tablev(self.tables@.last().1)),
            ));
            assert(storev(*self).label_table_map =~= storev(*old(self)).label_table_map);
        }
    }

    /// Maps a label to a table name for resolution.
    pub fn map_label(&mut self, label: String, table_name: String)
        ensures
            storev(*final(self)).label_table_map == storev(*old(self)).label_table_map.push(
                (label@, table_name@),
            ),
            storev(*final(self)).tables == storev(*old(self)).tables,
    {
        self.label_table_map.push((label, table_name));
        proof {
            assert(storev(*self).label_table_map =~= storev(*old(self)).label_table_map.push(
                (self.label_table_map@.last().0@, self.label_table_map@.last().1@),
            ));
            assert(storev(*self).tables =~= storev(*old(self)).tables);
        }
    }

    /// The first table under `name`, if any.
    pub fn get_table(&self, name: &str) -> (r: Option<&Table>)
        ensures
            match r {
                Some(t) => sp_table_get(storev(*self).tables, name@) == Some(tablev(*t)),
                None => sp_table_get(storev(*self).tables, name@) is None,
            },
    {
        let n = self.tables.len();
        let mut i: usize = 0;
        proof {
            assert(storev(*self).tables.skip(0) =~= storev(*self).tables);
        }
        while i < n
            invariant
                n == self.tables@.len(),
                i <= n,
                sp_table_get(storev(*self).tables, name@) == sp_table_get(
                    storev(*self).tables.skip(i as int),
                    name@,
                ),
            decreases n - i,
        {
            proof {
                assert(storev(*self).tables.skip(i as int)[0] == (
                    self.tables@[i as int].0@,
                    tablev(self.tables@[i as int].1),
                ));
                assert(storev(*self).tables.skip(i as int).drop_first() =~= storev(
                    *self,
                ).tables.skip(i + 1));
            }
            if str_eq(self.tables[i].0.as_str(), name) {
                return Some(&self.tables[i].1);
            }
            i = i + 1;
        }
        proof {
            assert(storev(*self).tables.skip(n as int) =~= Seq::<(Seq<char>, SpecTable)>::empty());
        }
        None
    }

    /// The table name a label resolves to: the mapped name, or the label
    /// itself on a miss.
    pub fn resolve(&self, label: &str) -> (r: String)
        ensures
            r@ == sp_resolve(storev(*self).label_table_map, label@),
    {
        let n = self.label_table_map.len();
        let mut i: usize = 0;
        proof {
            assert(storev(*self).label_table_map.skip(0) =~= storev(*self).label_table_map);
        }
        while i < n
            invariant
                n == self.label_table_map@.len(),
                i <= n,
                sp_resolve(storev(*self).label_table_map, label@) == sp_resolve(
                    storev(*self).label_table_map.skip(i as int),
                    label@,
                ),
            decreases n - i,
        {
            proof {
                assert(storev(*self).label_table_map.skip(i as int)[0] == (
                    self.label_table_map@[i as int].0@,
                    self.label_table_map@[i as int].1@,
                ));
                assert(storev(*self).label_table_map.skip(i as int).drop_first() =~= storev(
                    *self,
                ).label_table_map.skip(i + 1));
            }
            if str_eq(self.label_table_map[i].0.as_str(), label) {
                return self.label_table_map[i].1.clone();
            }
            i = i + 1;
        }
        proof {
            assert(storev(*self).label_table_map.skip(n as int) =~= Seq::<
                (Seq<char>, Seq<char>),
            >::empty());
        }
        String::from_str(label)
    }
}

} // verus!
