//! Pull-based execution: operators implementing an open/next/close
//! protocol. A scan and a hop fully materialize their results at open;
//! a filter and a projection stream one row per pull.

use vstd::prelude::*;
use crate::error::{Error, ErrorKind};
use crate::plan::{ScalarExpr, SpecRel, SpecScalar, aliasedv, scalarsv, scalarv};
use crate::store::{Store, SpecStore, SpecTable, Table, sp_resolve, sp_table_get, storev, tablev};
use crate::types::{assoc_get, assoc_set, vview, SpecValue, Value, str_eq};
use crate::eval::{eval, spec_eval};

verus! {

/// One in-flight match: an ordered binding of variable names to values.
#[derive(Debug)]
pub struct ExecutionContext {
    pub values: Vec<(String, Value)>,
}

/// The shape of a row: its bindings in order.
pub open spec fn ctxv(c: ExecutionContext) -> Seq<(Seq<char>, SpecValue)> {
    Seq::new(c.values@.len(), |i: int| (c.values@[i].0@, vview(c.values@[i].1)))
}

/// The shapes of a list of rows.
pub open spec fn ctxsv(v: Seq<ExecutionContext>) -> Seq<Seq<(Seq<char>, SpecValue)>> {
    Seq::new(v.len(), |i: int| ctxv(v[i]))
}

impl ExecutionContext {
    /// A row with no bindings.
    pub fn new() -> (r: ExecutionContext)
        ensures
            ctxv(r) == Seq::<(Seq<char>, SpecValue)>::empty(),
    {
        let r = ExecutionContext { values: Vec::new() };
        proof {
            assert(ctxv(r) =~= Seq::<(Seq<char>, SpecValue)>::empty());
        }
        r
    }

    /// The value bound under `name`, if any.
    pub fn get(&self, name: &str) -> (r: Option<&Value>)
        ensures
            match r {
                Some(v) => assoc_get(ctxv(*self), name@) == Some(vview(*v)),
                None => assoc_get(ctxv(*self), name@) is None,
            },
    {
        let n = self.values.len();
        let mut i: usize = 0;
        proof {
            assert(ctxv(*self).skip(0) =~= ctxv(*self));
        }
        while i < n
            invariant
                n == self.values@.len(),
                i <= n,
                assoc_get(ctxv(*self), name@) == assoc_get(ctxv(*self).skip(i as int), name@),
            decreases n - i,
        {
            proof {
                assert(ctxv(*self).skip(i as int)[0] == (
                    self.values@[i as int].0@,
                    vview(self.values@[i as int].1),
                ));
                assert(ctxv(*self).skip(i as int).drop_first() =~= ctxv(*self).skip(i + 1));
            }
            if str_eq(self.values[i].0.as_str(), name) {
                return Some(&self.values[i].1);
            }
            i = i + 1;
        }
        proof {
            assert(ctxv(*self).skip(n as int) =~= Seq::<(Seq<char>, SpecValue)>::empty());
        }
        None
    }

    /// Binds `name` to `value`, replacing any previous binding.
    pub fn set(&mut self, name: &str, value: Value)
        ensures
            ctxv(*final(self)) == assoc_set(ctxv(*old(self)), name@, vview(value)),
    {
        let n = self.values.len();
        let mut i: usize = 0;
        while i < n
            invariant
                n == self.values@.len(),
                i <= n,
                *self == *old(self),
                forall|k: int| 0 <= k < i ==> ctxv(*self)[k].0 != name@,
            decreases n - i,
        {
            proof {
                assert(ctxv(*self)[i as int] == (
                    self.values@[i as int].0@,
                    vview(self.values@[i as int].1),
                ));
            }
            if str_eq(self.values[i].0.as_str(), name) {
                self.values.set(i, (String::from_str(name), value));
                proof {
                    crate::types::lemma_assoc_set_replaces(
                        ctxv(*old(self)),
                        name@,
                        vview(value),
                        i as int,
                    );
                    assert(ctxv(*self) =~= ctxv(*old(self)).update(
                        i as int,
                        (name@, vview(value)),
                    ));
                }
                return ;
            }
            i = i + 1;
        }
        self.values.push((String::from_str(name), value));
        proof {
            crate::types::lemma_assoc_set_appends(ctxv(*old(self)), name@, vview(value));
            assert(ctxv(*self) =~= ctxv(*old(self)).push((name@, vview(value))));
        }
    }

    /// Drops every binding.
    pub fn clear(&mut self)
        ensures
            ctxv(*final(self)) == Seq::<(Seq<char>, SpecValue)>::empty(),
    {
        self.values.clear();
        proof {
            assert(ctxv(*self) =~= Seq::<(Seq<char>, SpecValue)>::empty());
        }
    }

    /// A deep copy holding the same bindings.
    pub fn duplicate(&self) -> (r: ExecutionContext)
        ensures
            ctxv(r) == ctxv(*self),
    {
        let mut values: Vec<(String, Value)> = Vec::new();
        let n = self.values.len();
        let mut i: usize = 0;
        while i < n
            invariant
                n == self.values@.len(),
                i <= n,
                values@.len() == i,
                forall|k: int|
                    0 <= k < i ==> (values@[k].0@, vview(values@[k].1)) == ctxv(*self)[k],
            decreases n - i,
        {
            proof {
                assert(ctxv(*self)[i as int] == (
                    self.values@[i as int].0@,
                    vview(self.values@[i as int].1),
                ));
            }
            let name = self.values[i].0.clone();
            let v = self.values[i].1.duplicate();
            values.push((name, v));
            i = i + 1;
        }
        let r = ExecutionContext { values };
        proof {
            assert(ctxv(r) =~= ctxv(*self));
        }
        r
    }
}

// ------------------------------------------------------------------
// Row semantics
// ------------------------------------------------------------------

/// The object of one table row: each column bound to its cell, later
/// duplicates of a column name winning.
pub open spec fn row_object_upto(cols: Seq<Seq<char>>, row: Seq<SpecValue>, k: int) -> Seq<
    (Seq<char>, SpecValue),
>
    decreases k,
{
    if k <= 0 {
        Seq::empty()
    } else {
        assoc_set(row_object_upto(cols, row, k - 1), cols[k - 1], row[k - 1])
    }
}

/// The object of one table row over the columns both sides have.
pub open spec fn row_object(cols: Seq<Seq<char>>, row: Seq<SpecValue>) -> Seq<
    (Seq<char>, SpecValue),
> {
    row_object_upto(
        cols,
        row,
        if cols.len() <= row.len() {
            cols.len() as int
        } else {
            row.len() as int
        },
    )
}

/// What a scan of `t` yields: one row per table row, binding `bind` to
/// that row's object.
pub open spec fn sp_scan_rows(t: SpecTable, bind: Seq<char>) -> Seq<Seq<(Seq<char>, SpecValue)>> {
    Seq::new(t.rows.len(), |i: int| seq![(bind, SpecValue::Object(row_object(t.columns, t.rows[i])))])
}

/// The object bound under `name` in a row, where one is known to be.
pub open spec fn obj_of(ctx: Seq<(Seq<char>, SpecValue)>, name: Seq<char>) -> Seq<
    (Seq<char>, SpecValue),
> {
    match assoc_get(ctx, name) {
        Some(SpecValue::Object(o)) => o,
        _ => arbitrary(),
    }
}

/// Whether an anchor row and a relationship row join: the anchor's bound
/// start object's `id` equals the relationship object's `start`.
pub open spec fn sp_match_start(
    ctx: Seq<(Seq<char>, SpecValue)>,
    rel: Seq<(Seq<char>, SpecValue)>,
    start_name: Seq<char>,
    rel_name: Seq<char>,
) -> bool {
    match (assoc_get(ctx, start_name), assoc_get(rel, rel_name)) {
        (Some(SpecValue::Object(l)), Some(SpecValue::Object(r))) => match (
            assoc_get(l, "id"@),
            assoc_get(r, "start"@),
        ) {
            (Some(lv), Some(rv)) => lv == rv,
            _ => false,
        },
        _ => false,
    }
}

/// Whether a joined row and an end-node row join: the relationship
/// object's `end` equals the end object's `id`.
pub open spec fn sp_match_end(
    ctx: Seq<(Seq<char>, SpecValue)>,
    endrow: Seq<(Seq<char>, SpecValue)>,
    rel_name: Seq<char>,
    end_name: Seq<char>,
) -> bool {
    match (assoc_get(ctx, rel_name), assoc_get(endrow, end_name)) {
        (Some(SpecValue::Object(l)), Some(SpecValue::Object(r))) => match (
            assoc_get(l, "end"@),
            assoc_get(r, "id"@),
        ) {
            (Some(lv), Some(rv)) => lv == rv,
            _ => false,
        },
        _ => false,
    }
}

/// Stage one for one anchor row: each matching relationship row extends
/// it with the relationship object.
pub open spec fn sp_stage1_row(
    ctx: Seq<(Seq<char>, SpecValue)>,
    rels: Seq<Seq<(Seq<char>, SpecValue)>>,
    start_name: Seq<char>,
    rel_name: Seq<char>,
) -> Seq<Seq<(Seq<char>, SpecValue)>>
    decreases rels.len(),
{
    if rels.len() == 0 {
        Seq::empty()
    } else {
        (if sp_match_start(ctx, rels[0], start_name, rel_name) {
            seq![assoc_set(ctx, rel_name, SpecValue::Object(obj_of(rels[0], rel_name)))]
        } else {
            Seq::empty()
        }) + sp_stage1_row(ctx, rels.drop_first(), start_name, rel_name)
    }
}

/// Stage one over all anchors, anchors outermost.
pub open spec fn sp_stage1(
    anchors: Seq<Seq<(Seq<char>, SpecValue)>>,
    rels: Seq<Seq<(Seq<char>, SpecValue)>>,
    start_name: Seq<char>,
    rel_name: Seq<char>,
) -> Seq<Seq<(Seq<char>, SpecValue)>>
    decreases anchors.len(),
{
    if anchors.len() == 0 {
        Seq::empty()
    } else {
        sp_stage1_row(anchors[0], rels, start_name, rel_name) + sp_stage1(
            anchors.drop_first(),
            rels,
            start_name,
            rel_name,
        )
    }
}

/// Stage two for one joined row: each matching end row extends it with
/// the end object.
pub open spec fn sp_stage2_row(
    ctx: Seq<(Seq<char>, SpecValue)>,
    ends: Seq<Seq<(Seq<char>, SpecValue)>>,
    rel_name: Seq<char>,
    end_name: Seq<char>,
) -> Seq<Seq<(Seq<char>, SpecValue)>>
    decreases ends.len(),
{
    if ends.len() == 0 {
        Seq::empty()
    } else {
        (if sp_match_end(ctx, ends[0], rel_name, end_name) {
            seq![assoc_set(ctx, end_name, SpecValue::Object(obj_of(ends[0], end_name)))]
        } else {
            Seq::empty()
        }) + sp_stage2_row(ctx, ends.drop_first(), rel_name, end_name)
    }
}

/// Stage two over all stage-one results.
pub open spec fn sp_stage2(
    mids: Seq<Seq<(Seq<char>, SpecValue)>>,
    ends: Seq<Seq<(Seq<char>, SpecValue)>>,
    rel_name: Seq<char>,
    end_name: Seq<char>,
) -> Seq<Seq<(Seq<char>, SpecValue)>>
    decreases mids.len(),
{
    if mids.len() == 0 {
        Seq::empty()
    } else {
        sp_stage2_row(mids[0], ends, rel_name, end_name) + sp_stage2(
            mids.drop_first(),
            ends,
            rel_name,
            end_name,
        )
    }
}

/// Whether every conjunct evaluates to the boolean true on a row.
pub open spec fn sp_conj(preds: Seq<SpecScalar>, ctx: Seq<(Seq<char>, SpecValue)>) -> bool
    decreases preds.len(),
{
    if preds.len() == 0 {
        true
    } else {
        spec_eval(preds[0], ctx) == SpecValue::Boolean(true) && sp_conj(preds.drop_first(), ctx)
    }
}

/// The rows whose conjunction holds, in order.
pub open spec fn sp_filter_rows(
    preds: Seq<SpecScalar>,
    rows: Seq<Seq<(Seq<char>, SpecValue)>>,
) -> Seq<Seq<(Seq<char>, SpecValue)>>
    decreases rows.len(),
{
    if rows.len() == 0 {
        Seq::empty()
    } else {
        (if sp_conj(preds, rows[0]) {
            seq![rows[0]]
        } else {
            Seq::empty()
        }) + sp_filter_rows(preds, rows.drop_first())
    }
}

/// Star projection: extends the row in place, one projection at a time,
/// each evaluated against the row as extended so far.
pub open spec fn sp_project_star(
    projects: Seq<(SpecScalar, Seq<char>)>,
    acc: Seq<(Seq<char>, SpecValue)>,
) -> Seq<(Seq<char>, SpecValue)>
    decreases projects.len(),
{
    if projects.len() == 0 {
        acc
    } else {
        sp_project_star(
            projects.drop_first(),
            assoc_set(acc, projects[0].1, spec_eval(projects[0].0, acc)),
        )
    }
}

/// Fresh projection: builds a row of exactly the aliases, each evaluated
/// against the original row.
pub open spec fn sp_project_fresh(
    projects: Seq<(SpecScalar, Seq<char>)>,
    ctx: Seq<(Seq<char>, SpecValue)>,
    acc: Seq<(Seq<char>, SpecValue)>,
) -> Seq<(Seq<char>, SpecValue)>
    decreases projects.len(),
{
    if projects.len() == 0 {
        acc
    } else {
        sp_project_fresh(
            projects.drop_first(),
            ctx,
            assoc_set(acc, projects[0].1, spec_eval(projects[0].0, ctx)),
        )
    }
}

/// What projection makes of one row.
pub open spec fn sp_project_ctx(
    projects: Seq<(SpecScalar, Seq<char>)>,
    star: bool,
    ctx: Seq<(Seq<char>, SpecValue)>,
) -> Seq<(Seq<char>, SpecValue)> {
    if star {
        sp_project_star(projects, ctx)
    } else {
        sp_project_fresh(projects, ctx, Seq::empty())
    }
}

/// What projection makes of every row.
pub open spec fn sp_project_rows(
    projects: Seq<(SpecScalar, Seq<char>)>,
    star: bool,
    rows: Seq<Seq<(Seq<char>, SpecValue)>>,
) -> Seq<Seq<(Seq<char>, SpecValue)>> {
    Seq::new(rows.len(), |i: int| sp_project_ctx(projects, star, rows[i]))
}

/// The rows a plan produces against a store, or nothing where a table
/// cannot be read or the plan is not executable.
pub open spec fn sp_rows(r: SpecRel, store: SpecStore) -> Option<Seq<Seq<(Seq<char>, SpecValue)>>>
    decreases r,
{
    match r {
        SpecRel::Scan { name, all, label } => {
            match sp_table_get(store.tables, sp_resolve(store.label_table_map, label)) {
                Some(t) => Some(sp_scan_rows(t, name)),
                None => None,
            }
        },
        SpecRel::Expand { start, end, rel, rel_type, end_label, child } => {
            match sp_rows(*child, store) {
                None => None,
                Some(anchors) => {
                    match (
                        sp_table_get(store.tables, sp_resolve(store.label_table_map, rel_type)),
                        sp_table_get(store.tables, sp_resolve(store.label_table_map, end_label)),
                    ) {
                        (Some(rt), Some(et)) => Some(
                            sp_stage2(
                                sp_stage1(anchors, sp_scan_rows(rt, rel), start, rel),
                                sp_scan_rows(et, end),
                                rel,
                                end,
                            ),
                        ),
                        _ => None,
                    }
                },
            }
        },
        SpecRel::Join(_, _) => None,
        SpecRel::Selection { filter, child } => match sp_rows(*child, store) {
            Some(rows) => Some(sp_filter_rows(filter, rows)),
            None => None,
        },
        SpecRel::Projection { projects, star, child } => match sp_rows(*child, store) {
            Some(rows) => Some(sp_project_rows(projects, star, rows)),
            None => None,
        },
    }
}

// ------------------------------------------------------------------
// Snoc lemmas for the join stages
// ------------------------------------------------------------------

/// Appending one relationship row extends stage one of one anchor at the
/// end.
pub proof fn lemma_stage1_row_snoc(
    ctx: Seq<(Seq<char>, SpecValue)>,
    rels: Seq<Seq<(Seq<char>, SpecValue)>>,
    x: Seq<(Seq<char>, SpecValue)>,
    start_name: Seq<char>,
    rel_name: Seq<char>,
)
    ensures
        sp_stage1_row(ctx, rels.push(x), start_name, rel_name) == sp_stage1_row(
            ctx,
            rels,
            start_name,
            rel_name,
        ) + (if sp_match_start(ctx, x, start_name, rel_name) {
            seq![assoc_set(ctx, rel_name, SpecValue::Object(obj_of(x, rel_name)))]
        } else {
            Seq::empty()
        }),
    decreases rels.len(),
{
    if rels.len() == 0 {
        assert(rels.push(x).drop_first() =~= Seq::<Seq<(Seq<char>, SpecValue)>>::empty());
        assert(rels.push(x)[0] == x);
        assert(sp_stage1_row(ctx, rels, start_name, rel_name) =~= Seq::<
            Seq<(Seq<char>, SpecValue)>,
        >::empty());
        assert(sp_stage1_row(
            ctx,
            Seq::<Seq<(Seq<char>, SpecValue)>>::empty(),
            start_name,
            rel_name,
        ) =~= Seq::<Seq<(Seq<char>, SpecValue)>>::empty());
        assert(sp_stage1_row(ctx, rels.push(x), start_name, rel_name) =~= sp_stage1_row(
            ctx,
            rels,
            start_name,
            rel_name,
        ) + (if sp_match_start(ctx, x, start_name, rel_name) {
            seq![assoc_set(ctx, rel_name, SpecValue::Object(obj_of(x, rel_name)))]
        } else {
            Seq::empty()
        }));
    } else {
        assert(rels.push(x).drop_first() =~= rels.drop_first().push(x));
        assert(rels.push(x)[0] == rels[0]);
        lemma_stage1_row_snoc(ctx, rels.drop_first(), x, start_name, rel_name);
        assert(sp_stage1_row(ctx, rels.push(x), start_name, rel_name) =~= sp_stage1_row(
            ctx,
            rels,
            start_name,
            rel_name,
        ) + (if sp_match_start(ctx, x, start_name, rel_name) {
            seq![assoc_set(ctx, rel_name, SpecValue::Object(obj_of(x, rel_name)))]
        } else {
            Seq::empty()
        }));
    }
}

/// Appending one anchor extends stage one at the end.
pub proof fn lemma_stage1_snoc(
    anchors: Seq<Seq<(Seq<char>, SpecValue)>>,
    rels: Seq<Seq<(Seq<char>, SpecValue)>>,
    x: Seq<(Seq<char>, SpecValue)>,
    start_name: Seq<char>,
    rel_name: Seq<char>,
)
    ensures
        sp_stage1(anchors.push(x), rels, start_name, rel_name) == sp_stage1(
            anchors,
            rels,
            start_name,
            rel_name,
        ) + sp_stage1_row(x, rels, start_name, rel_name),
    decreases anchors.len(),
{
    if anchors.len() == 0 {
        assert(anchors.push(x).drop_first() =~= Seq::<Seq<(Seq<char>, SpecValue)>>::empty());
        assert(anchors.push(x)[0] == x);
        assert(sp_stage1(anchors, rels, start_name, rel_name) =~= Seq::<
            Seq<(Seq<char>, SpecValue)>,
        >::empty());
        assert(sp_stage1(
            Seq::<Seq<(Seq<char>, SpecValue)>>::empty(),
            rels,
            start_name,
            rel_name,
        ) =~= Seq::<Seq<(Seq<char>, SpecValue)>>::empty());
        assert(sp_stage1(anchors.push(x), rels, start_name, rel_name) =~= sp_stage1(
            anchors,
            rels,
            start_name,
            rel_name,
        ) + sp_stage1_row(x, rels, start_name, rel_name));
    } else {
        assert(anchors.push(x).drop_first() =~= anchors.drop_first().push(x));
        assert(anchors.push(x)[0] == anchors[0]);
        lemma_stage1_snoc(anchors.drop_first(), rels, x, start_name, rel_name);
        assert(sp_stage1(anchors.push(x), rels, start_name, rel_name) =~= sp_stage1(
            anchors,
            rels,
            start_name,
            rel_name,
        ) + sp_stage1_row(x, rels, start_name, rel_name));
    }
}

/// Appending one end row extends stage two of one row at the end.
pub proof fn lemma_stage2_row_snoc(
    ctx: Seq<(Seq<char>, SpecValue)>,
    ends: Seq<Seq<(Seq<char>, SpecValue)>>,
    x: Seq<(Seq<char>, SpecValue)>,
    rel_name: Seq<char>,
    end_name: Seq<char>,
)
    ensures
        sp_stage2_row(ctx, ends.push(x), rel_name, end_name) == sp_stage2_row(
            ctx,
            ends,
            rel_name,
            end_name,
        ) + (if sp_match_end(ctx, x, rel_name, end_name) {
            seq![assoc_set(ctx, end_name, SpecValue::Object(obj_of(x, end_name)))]
        } else {
            Seq::empty()
        }),
    decreases ends.len(),
{
    if ends.len() == 0 {
        assert(ends.push(x).drop_first() =~= Seq::<Seq<(Seq<char>, SpecValue)>>::empty());
        assert(ends.push(x)[0] == x);
        assert(sp_stage2_row(ctx, ends, rel_name, end_name) =~= Seq::<
            Seq<(Seq<char>, SpecValue)>,
        >::empty());
        assert(sp_stage2_row(
            ctx,
            Seq::<Seq<(Seq<char>, SpecValue)>>::empty(),
            rel_name,
            end_name,
        ) =~= Seq::<Seq<(Seq<char>, SpecValue)>>::empty());
        assert(sp_stage2_row(ctx, ends.push(x), rel_name, end_name) =~= sp_stage2_row(
            ctx,
            ends,
            rel_name,
            end_name,
        ) + (if sp_match_end(ctx, x, rel_name, end_name) {
            seq![assoc_set(ctx, end_name, SpecValue::Object(obj_of(x, end_name)))]
        } else {
            Seq::empty()
        }));
    } else {
        assert(ends.push(x).drop_first() =~= ends.drop_first().push(x));
        assert(ends.push(x)[0] == ends[0]);
        lemma_stage2_row_snoc(ctx, ends.drop_first(), x, rel_name, end_name);
        assert(sp_stage2_row(ctx, ends.push(x), rel_name, end_name) =~= sp_stage2_row(
            ctx,
            ends,
            rel_name,
            end_name,
        ) + (if sp_match_end(ctx, x, rel_name, end_name) {
            seq![assoc_set(ctx, end_name, SpecValue::Object(obj_of(x, end_name)))]
        } else {
            Seq::empty()
        }));
    }
}

/// Appending one row extends stage two at the end.
pub proof fn lemma_stage2_snoc(
    mids: Seq<Seq<(Seq<char>, SpecValue)>>,
    ends: Seq<Seq<(Seq<char>, SpecValue)>>,
    x: Seq<(Seq<char>, SpecValue)>,
    rel_name: Seq<char>,
    end_name: Seq<char>,
)
    ensures
        sp_stage2(mids.push(x), ends, rel_name, end_name) == sp_stage2(
            mids,
            ends,
            rel_name,
            end_name,
        ) + sp_stage2_row(x, ends, rel_name, end_name),
    decreases mids.len(),
{
    if mids.len() == 0 {
        assert(mids.push(x).drop_first() =~= Seq::<Seq<(Seq<char>, SpecValue)>>::empty());
        assert(mids.push(x)[0] == x);
        assert(sp_stage2(mids, ends, rel_name, end_name) =~= Seq::<
            Seq<(Seq<char>, SpecValue)>,
        >::empty());
        assert(sp_stage2(
            Seq::<Seq<(Seq<char>, SpecValue)>>::empty(),
            ends,
            rel_name,
            end_name,
        ) =~= Seq::<Seq<(Seq<char>, SpecValue)>>::empty());
        assert(sp_stage2(mids.push(x), ends, rel_name, end_name) =~= sp_stage2(
            mids,
            ends,
            rel_name,
            end_name,
        ) + sp_stage2_row(x, ends, rel_name, end_name));
    } else {
        assert(mids.push(x).drop_first() =~= mids.drop_first().push(x));
        assert(mids.push(x)[0] == mids[0]);
        lemma_stage2_snoc(mids.drop_first(), ends, x, rel_name, end_name);
        assert(sp_stage2(mids.push(x), ends, rel_name, end_name) =~= sp_stage2(
            mids,
            ends,
            rel_name,
            end_name,
        ) + sp_stage2_row(x, ends, rel_name, end_name));
    }
}

// ------------------------------------------------------------------
// Operators
// ------------------------------------------------------------------

/// A full scan of one table, materialized at open.
#[derive(Debug)]
pub struct TiDBScanExec {
    pub binded_name: String,
    pub all: bool,
    pub label: String,
    pub result: Vec<ExecutionContext>,
    pub cursor: usize,
}

/// One relationship hop: drains its child, then joins in two stages,
/// materialized at open.
#[derive(Debug)]
pub struct TiDBNestedLoopExpand {
    pub start_name: String,
    pub end_name: String,
    pub rel_name: String,
    pub rel_type: String,
    pub end_label: String,
    pub child: Box<Executor>,
    pub result: Vec<ExecutionContext>,
    pub cursor: usize,
}

/// A streaming filter over its child.
#[derive(Debug)]
pub struct FilterExec {
    pub filter: Vec<ScalarExpr>,
    pub child: Box<Executor>,
}

/// A streaming projection over its child.
#[derive(Debug)]
pub struct ProjectExec {
    pub projects: Vec<(ScalarExpr, String)>,
    pub star: bool,
    pub child: Box<Executor>,
}

/// The closed set of physical operators.
#[derive(Debug)]
pub enum Executor {
    Scan(TiDBScanExec),
    Expand(Box<TiDBNestedLoopExpand>),
    Filter(Box<FilterExec>),
    Project(Box<ProjectExec>),
}

/// The logical node an operator implements.
pub open spec fn opv(e: Executor) -> SpecRel
    decreases e,
{
    match e {
        Executor::Scan(s) => SpecRel::Scan {
            name: s.binded_name@,
            all: s.all,
            label: s.label@,
        },
        Executor::Expand(x) => SpecRel::Expand {
            start: x.start_name@,
            end: x.end_name@,
            rel: x.rel_name@,
            rel_type: x.rel_type@,
            end_label: x.end_label@,
            child: Box::new(opv(*x.child)),
        },
        Executor::Filter(f) => SpecRel::Selection {
            filter: scalarsv(f.filter@),
            child: Box::new(opv(*f.child)),
        },
        Executor::Project(p) => SpecRel::Projection {
            projects: aliasedv(p.projects@),
            star: p.star,
            child: Box::new(opv(*p.child)),
        },
    }
}

/// The rows an operator has still to hand out.
pub open spec fn stream(e: Executor) -> Seq<Seq<(Seq<char>, SpecValue)>>
    decreases e,
{
    match e {
        Executor::Scan(s) => ctxsv(s.result@).skip(
            if s.cursor <= s.result@.len() {
                s.cursor as int
            } else {
                s.result@.len() as int
            },
        ),
        Executor::Expand(x) => ctxsv(x.result@).skip(
            if x.cursor <= x.result@.len() {
                x.cursor as int
            } else {
                x.result@.len() as int
            },
        ),
        Executor::Filter(f) => sp_filter_rows(scalarsv(f.filter@), stream(*f.child)),
        Executor::Project(p) => sp_project_rows(aliasedv(p.projects@), p.star, stream(*p.child)),
    }
}

/// The height of an operator tree.
pub open spec fn op_height(e: Executor) -> nat
    decreases e,
{
    match e {
        Executor::Scan(_) => 1,
        Executor::Expand(x) => 1 + op_height(*x.child),
        Executor::Filter(f) => 1 + op_height(*f.child),
        Executor::Project(p) => 1 + op_height(*p.child),
    }
}

/// The error reported for a table that cannot be read.
fn store_error() -> (r: Error)
    ensures
        r.kind == ErrorKind::Mysql,
{
    Error { msg: String::from_str("table cannot be read"), kind: ErrorKind::Mysql }
}

/// Materializes a table: one row per table row, binding `bind` to that
/// row's object.
fn materialize_table(t: &Table, bind: &str) -> (r: Vec<ExecutionContext>)
    ensures
        ctxsv(r@) == sp_scan_rows(tablev(*t), bind@),
{
    let mut out: Vec<ExecutionContext> = Vec::new();
    let nrows = t.rows.len();
    let mut i: usize = 0;
    proof {
        assert(ctxsv(out@) =~= sp_scan_rows(tablev(*t), bind@).take(0));
    }
    while i < nrows
        invariant
            nrows == t.rows@.len(),
            i <= nrows,
            out@.len() == i,
            ctxsv(out@) == sp_scan_rows(tablev(*t), bind@).take(i as int),
        decreases nrows - i,
    {
        let mut obj = crate::types::Object::new();
        let ncols = t.columns.len();
        let row_len = t.rows[i].len();
        let m: usize = if ncols <= row_len {
            ncols
        } else {
            row_len
        };
        let mut j: usize = 0;
        while j < m
            invariant
                m <= t.columns@.len(),
                m <= t.rows@[i as int]@.len(),
                i < t.rows@.len(),
                j <= m,
                crate::types::oview(obj) == row_object_upto(
                    tablev(*t).columns,
                    crate::store::cellsv(t.rows@[i as int]@),
                    j as int,
                ),
            decreases m - j,
        {
            proof {
                assert(tablev(*t).columns[j as int] == t.columns@[j as int]@);
                assert(crate::store::cellsv(t.rows@[i as int]@)[j as int] == vview(
                    t.rows@[i as int]@[j as int],
                ));
            }
            obj.set(t.columns[j].as_str(), &t.rows[i][j]);
            j = j + 1;
        }
        proof {
            assert(m as int == if tablev(*t).columns.len() <= crate::store::cellsv(
                t.rows@[i as int]@,
            ).len() {
                tablev(*t).columns.len() as int
            } else {
                crate::store::cellsv(t.rows@[i as int]@).len() as int
            });
        }
        let ghost objv = crate::types::oview(obj);
        proof {
            assert(vview(Value::Object(obj)) == SpecValue::Object(objv));
            assert(tablev(*t).rows[i as int] == crate::store::cellsv(t.rows@[i as int]@));
            assert(objv == row_object(tablev(*t).columns, tablev(*t).rows[i as int]));
        }
        let mut ctx = ExecutionContext::new();
        ctx.set(bind, Value::Object(obj));
        proof {
            assert(ctxv(ctx) =~= seq![(bind@, SpecValue::Object(objv))]);
        }
        let ghost prev = out@;
        proof {
            lemma_ctxsv_push(out@, ctx);
            assert(ctxv(ctx) =~= sp_scan_rows(tablev(*t), bind@)[i as int]);
        }
        out.push(ctx);
        proof {
            assert(ctxsv(out@) == ctxsv(prev).push(ctxv(out@.last())));
            assert(sp_scan_rows(tablev(*t), bind@).take(i + 1) =~= sp_scan_rows(
                tablev(*t),
                bind@,
            ).take(i as int).push(sp_scan_rows(tablev(*t), bind@)[i as int]));
        }
        i = i + 1;
    }
    proof {
        assert(sp_scan_rows(tablev(*t), bind@).take(nrows as int) =~= sp_scan_rows(
            tablev(*t),
            bind@,
        ));
    }
    out
}

/// Joins one anchor row with one relationship row, extending it with the
/// relationship object when the endpoints match.
fn join_start(ctx: &ExecutionContext, rel: &ExecutionContext, start_name: &str, rel_name: &str) -> (
    r: Option<ExecutionContext>)
    ensures
        match r {
            Some(res) => sp_match_start(ctxv(*ctx), ctxv(*rel), start_name@, rel_name@) && ctxv(res)
                == assoc_set(
                ctxv(*ctx),
                rel_name@,
                SpecValue::Object(obj_of(ctxv(*rel), rel_name@)),
            ),
            None => !sp_match_start(ctxv(*ctx), ctxv(*rel), start_name@, rel_name@),
        },
{
    proof {
        reveal_strlit("id");
        reveal_strlit("start");
    }
    match (ctx.get(start_name), rel.get(rel_name)) {
        (Some(l), Some(r)) => {
            match (l, r) {
                (Value::Object(lo), Value::Object(ro)) => {
                    match (lo.get("id"), ro.get("start")) {
                        (Some(lv), Some(rv)) => {
                            if lv.same(rv) {
                                let robj = r.duplicate();
                                let mut res = ctx.duplicate();
                                res.set(rel_name, robj);
                                Some(res)
                            } else {
                                None
                            }
                        },
                        _ => None,
                    }
                },
                _ => None,
            }
        },
        _ => None,
    }
}

/// Joins one stage-one row with one end-node row, extending it with the
/// end object when the endpoints match.
fn join_end(ctx: &ExecutionContext, endrow: &ExecutionContext, rel_name: &str, end_name: &str) -> (
    r: Option<ExecutionContext>)
    ensures
        match r {
            Some(res) => sp_match_end(ctxv(*ctx), ctxv(*endrow), rel_name@, end_name@) && ctxv(res)
                == assoc_set(
                ctxv(*ctx),
                end_name@,
                SpecValue::Object(obj_of(ctxv(*endrow), end_name@)),
            ),
            None => !sp_match_end(ctxv(*ctx), ctxv(*endrow), rel_name@, end_name@),
        },
{
    proof {
        reveal_strlit("id");
        reveal_strlit("end");
    }
    match (ctx.get(rel_name), endrow.get(end_name)) {
        (Some(l), Some(r)) => {
            match (l, r) {
                (Value::Object(lo), Value::Object(ro)) => {
                    match (lo.get("end"), ro.get("id")) {
                        (Some(lv), Some(rv)) => {
                            if lv.same(rv) {
                                let robj = r.duplicate();
                                let mut res = ctx.duplicate();
                                res.set(end_name, robj);
                                Some(res)
                            } else {
                                None
                            }
                        },
                        _ => None,
                    }
                },
                _ => None,
            }
        },
        _ => None,
    }
}

/// Whether every conjunct evaluates to the boolean true on a row.
fn conj_holds(preds: &Vec<ScalarExpr>, ctx: &ExecutionContext) -> (r: bool)
    ensures
        r == sp_conj(scalarsv(preds@), ctxv(*ctx)),
{
    let n = preds.len();
    let mut i: usize = 0;
    proof {
        assert(scalarsv(preds@).skip(0) =~= scalarsv(preds@));
    }
    while i < n
        invariant
            n == preds@.len(),
            i <= n,
            sp_conj(scalarsv(preds@), ctxv(*ctx)) == sp_conj(
                scalarsv(preds@).skip(i as int),
                ctxv(*ctx),
            ),
        decreases n - i,
    {
        proof {
            assert(scalarsv(preds@).skip(i as int)[0] == scalarv(preds@[i as int]));
            assert(scalarsv(preds@).skip(i as int).drop_first() =~= scalarsv(preds@).skip(i + 1));
        }
        let v = match eval(&preds[i], ctx) {
            Ok(v) => v,
            Err(_) => {
                return false;
            },
        };
        let is_true = match v {
            Value::Boolean(b) => b,
            _ => false,
        };
        if !is_true {
            return false;
        }
        i = i + 1;
    }
    proof {
        assert(scalarsv(preds@).skip(n as int) =~= Seq::<SpecScalar>::empty());
    }
    true
}

impl TiDBScanExec {
    /// A scan operator for a logical scan node.
    pub fn new(expr: &crate::plan::ScanExpr) -> (r: TiDBScanExec)
        ensures
            r.binded_name@ == expr.binded_name@,
            r.all == expr.all,
            r.label@ == expr.label@,
    {
        TiDBScanExec {
            binded_name: expr.binded_name.clone(),
            all: expr.all,
            label: expr.label.clone(),
            result: Vec::new(),
            cursor: 0,
        }
    }
}

impl TiDBNestedLoopExpand {
    /// A hop operator over an assembled child.
    pub fn new(child: Executor, expand: &crate::plan::ExpandExpr) -> (r: TiDBNestedLoopExpand)
        ensures
            r.start_name@ == expand.start_name@,
            r.end_name@ == expand.end_name@,
            r.rel_name@ == expand.rel_name@,
            r.rel_type@ == expand.rel_type@,
            r.end_label@ == expand.end_label@,
            opv(*r.child) == opv(child),
    {
        TiDBNestedLoopExpand {
            start_name: expand.start_name.clone(),
            end_name: expand.end_name.clone(),
            rel_name: expand.rel_name.clone(),
            rel_type: expand.rel_type.clone(),
            end_label: expand.end_label.clone(),
            child: Box::new(child),
            result: Vec::new(),
            cursor: 0,
        }
    }
}

impl FilterExec {
    /// A filter operator over an assembled child.
    pub fn new(child: Executor, select: &crate::plan::SelectExpr) -> (r: FilterExec)
        ensures
            scalarsv(r.filter@) == scalarsv(select.filter@),
            opv(*r.child) == opv(child),
    {
        let mut filter: Vec<ScalarExpr> = Vec::new();
        let n = select.filter.len();
        let mut i: usize = 0;
        while i < n
            invariant
                n == select.filter@.len(),
                i <= n,
                filter@.len() == i,
                forall|k: int|
                    0 <= k < i ==> scalarv(filter@[k]) == scalarv(select.filter@[k]),
            decreases n - i,
        {
            let s = select.filter[i].dup();
            filter.push(s);
            i = i + 1;
        }
        proof {
            assert(scalarsv(filter@) =~= scalarsv(select.filter@));
        }
        FilterExec { filter, child: Box::new(child) }
    }
}

impl ProjectExec {
    /// A projection operator over an assembled child.
    pub fn new(child: Executor, project: &crate::plan::ProjectExpr) -> (r: ProjectExec)
        ensures
            aliasedv(r.projects@) == aliasedv(project.projects@),
            r.star == project.star,
            opv(*r.child) == opv(child),
    {
        let mut projects: Vec<(ScalarExpr, String)> = Vec::new();
        let n = project.projects.len();
        let mut i: usize = 0;
        while i < n
            invariant
                n == project.projects@.len(),
                i <= n,
                projects@.len() == i,
                forall|k: int|
                    0 <= k < i ==> (scalarv(projects@[k].0), projects@[k].1@) == (
                        scalarv(project.projects@[k].0),
                        project.projects@[k].1@,
                    ),
            decreases n - i,
        {
            let s = project.projects[i].0.dup();
            let alias = project.projects[i].1.clone();
            projects.push((s, alias));
            i = i + 1;
        }
        proof {
            assert(aliasedv(projects@) =~= aliasedv(project.projects@));
        }
        ProjectExec { projects, star: project.star, child: Box::new(child) }
    }
}

impl Executor {
    /// Prepares the operator: reads and materializes what it needs from
    /// the store, leaving the full result stream pending. Fails exactly
    /// when a needed table cannot be read.
    pub fn open(&mut self, store: &Store) -> (r: Result<(), Error>)
        ensures
            opv(*final(self)) == opv(*old(self)),
            op_height(*final(self)) == op_height(*old(self)),
            match r {
                Ok(_) => sp_rows(opv(*old(self)), storev(*store)) == Some(stream(*final(self))),
                Err(e) => sp_rows(opv(*old(self)), storev(*store)) is None && e.kind
                    == ErrorKind::Mysql,
            },
        decreases op_height(*old(self)),
    {
        match self {
            Executor::Scan(s) => {
                let table_name = store.resolve(s.label.as_str());
                match store.get_table(table_name.as_str()) {
                    Some(t) => {
                        s.result = materialize_table(t, s.binded_name.as_str());
                        s.cursor = 0;
                        proof {
                            assert(ctxsv(s.result@).skip(0) =~= ctxsv(s.result@));
                        }
                        Ok(())
                    },
                    None => Err(store_error()),
                }
            },
            Executor::Expand(x) => {
                match x.child.open(store) {
                    Ok(_) => {},
                    Err(e) => {
                        return Err(e);
                    },
                }
                let rel_table_name = store.resolve(x.rel_type.as_str());
                let end_table_name = store.resolve(x.end_label.as_str());
                let rels: Vec<ExecutionContext> = match store.get_table(rel_table_name.as_str()) {
                    Some(t) => materialize_table(t, x.rel_name.as_str()),
                    None => {
                        return Err(store_error());
                    },
                };
                let ends: Vec<ExecutionContext> = match store.get_table(end_table_name.as_str()) {
                    Some(t) => materialize_table(t, x.end_name.as_str()),
                    None => {
                        return Err(store_error());
                    },
                };
                let ghost anchors0 = stream(*x.child);
                let ghost relsv = ctxsv(rels@);
                let ghost endsv = ctxsv(ends@);
                let ghost sn = x.start_name@;
                let ghost en = x.end_name@;
                let ghost rn = x.rel_name@;
                let ghost rt = x.rel_type@;
                let ghost el = x.end_label@;
                let ghost cv0 = opv(*x.child);
                // Stage one: drain the child, joining each anchor with
                // every relationship row.
                let mut mids: Vec<ExecutionContext> = Vec::new();
                let ghost mut consumed: int = 0;
                let mut draining = true;
                let ghost hc = op_height(*x.child);
                proof {
                    assert(anchors0.skip(0) =~= anchors0);
                    assert(anchors0.take(0) =~= Seq::<Seq<(Seq<char>, SpecValue)>>::empty());
                    assert(hc < op_height(*old(self)));
                }
                while draining
                    invariant
                        op_height(*x.child) == hc,
                        hc < op_height(*old(self)),
                        0 <= consumed <= anchors0.len(),
                        x.start_name@ == sn,
                        x.end_name@ == en,
                        x.rel_name@ == rn,
                        x.rel_type@ == rt,
                        x.end_label@ == el,
                        opv(*x.child) == cv0,
                        relsv == ctxsv(rels@),
                        draining ==> stream(*x.child) == anchors0.skip(consumed),
                        !draining ==> consumed == anchors0.len() && stream(*x.child).len() == 0,
                        ctxsv(mids@) == sp_stage1(anchors0.take(consumed), relsv, sn, rn),
                    decreases anchors0.len() - consumed + (if draining {
                        1int
                    } else {
                        0int
                    }),
                {
                    let nxt = match x.child.next() {
                        Ok(o) => o,
                        Err(e) => {
                            return Err(e);
                        },
                    };
                    match nxt {
                        None => {
                            proof {
                                assert(anchors0.skip(consumed).len() == 0);
                            }
                            draining = false;
                        },
                        Some(ctx) => {
                            proof {
                                assert(ctxv(ctx) == anchors0.skip(consumed)[0]);
                                assert(anchors0.skip(consumed)[0] == anchors0[consumed]);
                            }
                            let nrels = rels.len();
                            let mut j: usize = 0;
                            let ghost mids_before = ctxsv(mids@);
                            proof {
                                assert(relsv.take(0) =~= Seq::<
                                    Seq<(Seq<char>, SpecValue)>,
                                >::empty());
                                assert(sp_stage1_row(ctxv(ctx), relsv.take(0), sn, rn) =~= Seq::<
                                    Seq<(Seq<char>, SpecValue)>,
                                >::empty());
                                assert(ctxsv(mids@) =~= mids_before + sp_stage1_row(
                                    ctxv(ctx),
                                    relsv.take(0),
                                    sn,
                                    rn,
                                ));
                            }
                            while j < nrels
                                invariant
                                    nrels == rels@.len(),
                                    j <= nrels,
                                    x.start_name@ == sn,
                                    x.rel_name@ == rn,
                                    relsv == ctxsv(rels@),
                                    ctxsv(mids@) == mids_before + sp_stage1_row(
                                        ctxv(ctx),
                                        relsv.take(j as int),
                                        sn,
                                        rn,
                                    ),
                                decreases nrels - j,
                            {
                                proof {
                                    assert(relsv.take(j + 1) =~= relsv.take(j as int).push(
                                        relsv[j as int],
                                    ));
                                    assert(relsv[j as int] == ctxv(rels@[j as int]));
                                    lemma_stage1_row_snoc(
                                        ctxv(ctx),
                                        relsv.take(j as int),
                                        relsv[j as int],
                                        sn,
                                        rn,
                                    );
                                }
                                match join_start(
                                    &ctx,
                                    &rels[j],
                                    x.start_name.as_str(),
                                    x.rel_name.as_str(),
                                ) {
                                    Some(res) => {
                                        proof {
                                            assert(sp_match_start(
                                                ctxv(ctx),
                                                relsv[j as int],
                                                sn,
                                                rn,
                                            ));
                                            assert(ctxv(res) == assoc_set(
                                                ctxv(ctx),
                                                rn,
                                                SpecValue::Object(
                                                    obj_of(relsv[j as int], rn),
                                                ),
                                            ));
                                            assert(sp_stage1_row(
                                                ctxv(ctx),
                                                relsv.take(j + 1),
                                                sn,
                                                rn,
                                            ) =~= sp_stage1_row(
                                                ctxv(ctx),
                                                relsv.take(j as int),
                                                sn,
                                                rn,
                                            ).push(ctxv(res)));
                                        }
                                        let ghost resv = ctxv(res);
                                        let ghost prev = mids@;
                                        proof {
                                            lemma_ctxsv_push(mids@, res);
                                        }
                                        mids.push(res);
                                        proof {
                                            assert(ctxsv(mids@) == ctxsv(prev).push(resv));
                                            assert((mids_before + sp_stage1_row(
                                                ctxv(ctx),
                                                relsv.take(j as int),
                                                sn,
                                                rn,
                                            )).push(resv) =~= mids_before + sp_stage1_row(
                                                ctxv(ctx),
                                                relsv.take(j as int),
                                                sn,
                                                rn,
                                            ).push(resv));
                                            assert(ctxsv(mids@) == mids_before
                                                + sp_stage1_row(
                                                ctxv(ctx),
                                                relsv.take(j + 1),
                                                sn,
                                                rn,
                                            ));
                                        }
                                    },
                                    None => {
                                        proof {
                                            assert(ctxsv(mids@) =~= mids_before
                                                + sp_stage1_row(
                                                ctxv(ctx),
                                                relsv.take(j + 1),
                                                sn,
                                                rn,
                                            ));
                                        }
                                    },
                                }
                                j = j + 1;
                            }
                            proof {
                                assert(relsv.take(nrels as int) =~= relsv);
                                assert(anchors0.take(consumed + 1) =~= anchors0.take(
                                    consumed,
                                ).push(anchors0[consumed]));
                                lemma_stage1_snoc(
                                    anchors0.take(consumed),
                                    relsv,
                                    anchors0[consumed],
                                    sn,
                                    rn,
                                );
                                consumed = consumed + 1;
                                assert(anchors0.skip(consumed - 1).drop_first() =~= anchors0.skip(
                                    consumed,
                                ));
                            }
                        },
                    }
                }
                proof {
                    assert(anchors0.take(consumed) =~= anchors0);
                }
                // Stage two: join each stage-one row with every end row.
                let mut out: Vec<ExecutionContext> = Vec::new();
                let nmids = mids.len();
                let ghost midsv = ctxsv(mids@);
                let mut i: usize = 0;
                proof {
                    assert(midsv.take(0) =~= Seq::<Seq<(Seq<char>, SpecValue)>>::empty());
                    assert(sp_stage2(midsv.take(0), endsv, rn, en) =~= Seq::<
                        Seq<(Seq<char>, SpecValue)>,
                    >::empty());
                    assert(ctxsv(out@) =~= Seq::<Seq<(Seq<char>, SpecValue)>>::empty());
                }
                while i < nmids
                    invariant
                        nmids == mids@.len(),
                        i <= nmids,
                        x.start_name@ == sn,
                        x.end_name@ == en,
                        x.rel_name@ == rn,
                        x.rel_type@ == rt,
                        x.end_label@ == el,
                        opv(*x.child) == cv0,
                        midsv == ctxsv(mids@),
                        endsv == ctxsv(ends@),
                        ctxsv(out@) == sp_stage2(midsv.take(i as int), endsv, rn, en),
                    decreases nmids - i,
                {
                    let nends = ends.len();
                    let mut j: usize = 0;
                    let ghost out_before = ctxsv(out@);
                    proof {
                        assert(endsv.take(0) =~= Seq::<Seq<(Seq<char>, SpecValue)>>::empty());
                        assert(sp_stage2_row(midsv[i as int], endsv.take(0), rn, en) =~= Seq::<
                            Seq<(Seq<char>, SpecValue)>,
                        >::empty());
                        assert(ctxsv(out@) =~= out_before + sp_stage2_row(
                            midsv[i as int],
                            endsv.take(0),
                            rn,
                            en,
                        ));
                    }
                    while j < nends
                        invariant
                            nends == ends@.len(),
                            j <= nends,
                            i < mids@.len(),
                            x.rel_name@ == rn,
                            x.end_name@ == en,
                            midsv == ctxsv(mids@),
                            endsv == ctxsv(ends@),
                            ctxsv(out@) == out_before + sp_stage2_row(
                                midsv[i as int],
                                endsv.take(j as int),
                                rn,
                                en,
                            ),
                        decreases nends - j,
                    {
                        proof {
                            assert(endsv.take(j + 1) =~= endsv.take(j as int).push(
                                endsv[j as int],
                            ));
                            assert(endsv[j as int] == ctxv(ends@[j as int]));
                            assert(midsv[i as int] == ctxv(mids@[i as int]));
                            lemma_stage2_row_snoc(
                                midsv[i as int],
                                endsv.take(j as int),
                                endsv[j as int],
                                rn,
                                en,
                            );
                        }
                        match join_end(&mids[i], &ends[j], x.rel_name.as_str(), x.end_name.as_str())
                            {
                            Some(res) => {
                                proof {
                                    assert(sp_match_end(
                                        midsv[i as int],
                                        endsv[j as int],
                                        rn,
                                        en,
                                    ));
                                    assert(ctxv(res) == assoc_set(
                                        midsv[i as int],
                                        en,
                                        SpecValue::Object(obj_of(endsv[j as int], en)),
                                    ));
                                    assert(sp_stage2_row(
                                        midsv[i as int],
                                        endsv.take(j + 1),
                                        rn,
                                        en,
                                    ) =~= sp_stage2_row(
                                        midsv[i as int],
                                        endsv.take(j as int),
                                        rn,
                                        en,
                                    ).push(ctxv(res)));
                                }
                                let ghost resv = ctxv(res);
                                let ghost prev = out@;
                                proof {
                                    lemma_ctxsv_push(out@, res);
                                }
                                out.push(res);
                                proof {
                                    assert(ctxsv(out@) == ctxsv(prev).push(resv));
                                    assert((out_before + sp_stage2_row(
                                        midsv[i as int],
                                        endsv.take(j as int),
                                        rn,
                                        en,
                                    )).push(resv) =~= out_before + sp_stage2_row(
                                        midsv[i as int],
                                        endsv.take(j as int),
                                        rn,
                                        en,
                                    ).push(resv));
                                    assert(ctxsv(out@) == out_before + sp_stage2_row(
                                        midsv[i as int],
                                        endsv.take(j + 1),
                                        rn,
                                        en,
                                    ));
                                }
                            },
                            None => {
                                proof {
                                    assert(ctxsv(out@) =~= out_before + sp_stage2_row(
                                        midsv[i as int],
                                        endsv.take(j + 1),
                                        rn,
                                        en,
                                    ));
                                }
                            },
                        }
                        j = j + 1;
                    }
                    proof {
                        assert(endsv.take(nends as int) =~= endsv);
                        assert(midsv.take(i + 1) =~= midsv.take(i as int).push(midsv[i as int]));
                        lemma_stage2_snoc(midsv.take(i as int), endsv, midsv[i as int], rn, en);
                    }
                    i = i + 1;
                }
                proof {
                    assert(midsv.take(nmids as int) =~= midsv);
                }
                x.result = out;
                x.cursor = 0;
                proof {
                    assert(ctxsv(x.result@).skip(0) =~= ctxsv(x.result@));
                }
                Ok(())
            },
            Executor::Filter(f) => {
                match f.child.open(store) {
                    Ok(_) => Ok(()),
                    Err(e) => Err(e),
                }
            },
            Executor::Project(p) => {
                match p.child.open(store) {
                    Ok(_) => Ok(()),
                    Err(e) => Err(e),
                }
            },
        }
    }

    /// Hands out the next row, or nothing once the stream is exhausted;
    /// exhaustion keeps signalling itself on every further pull, and a
    /// pull never fails.
    pub fn next(&mut self) -> (r: Result<Option<ExecutionContext>, Error>)
        ensures
            opv(*final(self)) == opv(*old(self)),
            op_height(*final(self)) == op_height(*old(self)),
            match r {
                Ok(Some(ctx)) => stream(*old(self)).len() > 0 && ctxv(ctx) == stream(
                    *old(self),
                )[0] && stream(*final(self)) == stream(*old(self)).drop_first(),
                Ok(None) => stream(*old(self)).len() == 0 && stream(*final(self)) == stream(
                    *old(self),
                ),
                Err(_) => false,
            },
        decreases op_height(*old(self)),
    {
        match self {
            Executor::Scan(s) => {
                if s.cursor < s.result.len() {
                    let c = s.result[s.cursor].duplicate();
                    s.cursor = s.cursor + 1;
                    proof {
                        assert(ctxsv(s.result@).skip(s.cursor - 1)[0] == ctxv(
                            s.result@[s.cursor - 1],
                        ));
                        assert(ctxsv(s.result@).skip(s.cursor - 1).drop_first() =~= ctxsv(
                            s.result@,
                        ).skip(s.cursor as int));
                    }
                    Ok(Some(c))
                } else {
                    Ok(None)
                }
            },
            Executor::Expand(x) => {
                if x.cursor < x.result.len() {
                    let c = x.result[x.cursor].duplicate();
                    x.cursor = x.cursor + 1;
                    proof {
                        assert(ctxsv(x.result@).skip(x.cursor - 1)[0] == ctxv(
                            x.result@[x.cursor - 1],
                        ));
                        assert(ctxsv(x.result@).skip(x.cursor - 1).drop_first() =~= ctxsv(
                            x.result@,
                        ).skip(x.cursor as int));
                    }
                    Ok(Some(c))
                } else {
                    Ok(None)
                }
            },
            Executor::Filter(f) => {
                let ghost fpreds = scalarsv(f.filter@);
                let ghost ffilter0 = f.filter@;
                let ghost cv0 = opv(*f.child);
                let ghost target = sp_filter_rows(fpreds, stream(*f.child));
                let ghost hc = op_height(*f.child);
                let mut done = false;
                let mut out: Option<ExecutionContext> = None;
                proof {
                    assert(hc < op_height(*old(self)));
                }
                while !done
                    invariant
                        op_height(*f.child) == hc,
                        hc < op_height(*old(self)),
                        f.filter@ == ffilter0,
                        opv(*f.child) == cv0,
                        !done ==> out is None && sp_filter_rows(fpreds, stream(*f.child))
                            == target,
                        done ==> match out {
                            Some(c) => target.len() > 0 && ctxv(c) == target[0] && sp_filter_rows(
                                fpreds,
                                stream(*f.child),
                            ) == target.drop_first(),
                            None => target.len() == 0 && sp_filter_rows(
                                fpreds,
                                stream(*f.child),
                            ) == target,
                        },
                        fpreds == scalarsv(f.filter@),
                    decreases stream(*f.child).len() + (if done {
                        0int
                    } else {
                        1int
                    }),
                {
                    let ghost s_before = stream(*f.child);
                    let nxt = match f.child.next() {
                        Ok(o) => o,
                        Err(e) => {
                            return Err(e);
                        },
                    };
                    match nxt {
                        None => {
                            done = true;
                        },
                        Some(ctx) => {
                            proof {
                                assert(s_before[0] == ctxv(ctx));
                                assert(stream(*f.child) == s_before.drop_first());
                                assert(sp_filter_rows(fpreds, s_before) == (if sp_conj(
                                    fpreds,
                                    s_before[0],
                                ) {
                                    seq![s_before[0]]
                                } else {
                                    Seq::<Seq<(Seq<char>, SpecValue)>>::empty()
                                }) + sp_filter_rows(fpreds, s_before.drop_first()));
                                assert(Seq::<Seq<(Seq<char>, SpecValue)>>::empty()
                                    + sp_filter_rows(fpreds, s_before.drop_first())
                                    =~= sp_filter_rows(fpreds, s_before.drop_first()));
                                assert((seq![s_before[0]] + sp_filter_rows(
                                    fpreds,
                                    s_before.drop_first(),
                                )).drop_first() =~= sp_filter_rows(fpreds, s_before.drop_first()));
                            }
                            let keep = conj_holds(&f.filter, &ctx);
                            if keep {
                                out = Some(ctx);
                                done = true;
                            }
                        },
                    }
                }
                match out {
                    Some(c) => Ok(Some(c)),
                    None => Ok(None),
                }
            },
            Executor::Project(p) => {
                let ghost pprojects = aliasedv(p.projects@);
                let nxt = match p.child.next() {
                    Ok(o) => o,
                    Err(e) => {
                        return Err(e);
                    },
                };
                match nxt {
                    None => {
                        proof {
                            assert(sp_project_rows(
                                pprojects,
                                p.star,
                                stream(*p.child),
                            ).len() == 0);
                        }
                        Ok(None)
                    },
                    Some(ctx) => {
                        let ghost ctx0 = ctxv(ctx);
                        let nproj = p.projects.len();
                        let res: ExecutionContext = if p.star {
                            let mut cur = ctx;
                            let mut i: usize = 0;
                            proof {
                                assert(pprojects.skip(0) =~= pprojects);
                            }
                            while i < nproj
                                invariant
                                    nproj == p.projects@.len(),
                                    i <= nproj,
                                    pprojects == aliasedv(p.projects@),
                                    sp_project_star(pprojects.skip(i as int), ctxv(cur))
                                        == sp_project_star(pprojects, ctx0),
                                decreases nproj - i,
                            {
                                proof {
                                    assert(pprojects.skip(i as int)[0] == (
                                        scalarv(p.projects@[i as int].0),
                                        p.projects@[i as int].1@,
                                    ));
                                    assert(pprojects.skip(i as int).drop_first()
                                        =~= pprojects.skip(i + 1));
                                }
                                let v = match eval(&p.projects[i].0, &cur) {
                                    Ok(v) => v,
                                    Err(e) => {
                                        return Err(e);
                                    },
                                };
                                cur.set(p.projects[i].1.as_str(), v);
                                i = i + 1;
                            }
                            proof {
                                assert(pprojects.skip(nproj as int) =~= Seq::<
                                    (SpecScalar, Seq<char>),
                                >::empty());
                            }
                            cur
                        } else {
                            let mut fresh = ExecutionContext::new();
                            let mut i: usize = 0;
                            proof {
                                assert(pprojects.skip(0) =~= pprojects);
                            }
                            while i < nproj
                                invariant
                                    nproj == p.projects@.len(),
                                    i <= nproj,
                                    pprojects == aliasedv(p.projects@),
                                    ctxv(ctx) == ctx0,
                                    sp_project_fresh(
                                        pprojects.skip(i as int),
                                        ctx0,
                                        ctxv(fresh),
                                    ) == sp_project_fresh(
                                        pprojects,
                                        ctx0,
                                        Seq::<(Seq<char>, SpecValue)>::empty(),
                                    ),
                                decreases nproj - i,
                            {
                                proof {
                                    assert(pprojects.skip(i as int)[0] == (
                                        scalarv(p.projects@[i as int].0),
                                        p.projects@[i as int].1@,
                                    ));
                                    assert(pprojects.skip(i as int).drop_first()
                                        =~= pprojects.skip(i + 1));
                                }
                                let v = match eval(&p.projects[i].0, &ctx) {
                                    Ok(v) => v,
                                    Err(e) => {
                                        return Err(e);
                                    },
                                };
                                fresh.set(p.projects[i].1.as_str(), v);
                                i = i + 1;
                            }
                            proof {
                                assert(pprojects.skip(nproj as int) =~= Seq::<
                                    (SpecScalar, Seq<char>),
                                >::empty());
                            }
                            fresh
                        };
                        proof {
                            assert(sp_project_rows(
                                pprojects,
                                p.star,
                                stream(*p.child),
                            ) =~= sp_project_rows(
                                pprojects,
                                p.star,
                                stream(*p.child).insert(0, ctx0),
                            ).drop_first());
                        }
                        Ok(Some(res))
                    },
                }
            },
        }
    }

    /// Releases the operator. Never fails, whatever came before: safe
    /// after a failed or a partial open, and after exhaustion.
    pub fn close(&mut self) -> (r: Result<(), Error>)
        ensures
            r is Ok,
            opv(*final(self)) == opv(*old(self)),
            op_height(*final(self)) == op_height(*old(self)),
            stream(*final(self)) == stream(*old(self)),
        decreases op_height(*old(self)),
    {
        match self {
            Executor::Scan(_) => Ok(()),
            Executor::Expand(x) => {
                let inner = x.child.close();
                match inner {
                    Ok(_) => Ok(()),
                    Err(_) => Ok(()),
                }
            },
            Executor::Filter(f) => {
                let inner = f.child.close();
                match inner {
                    Ok(_) => Ok(()),
                    Err(_) => Ok(()),
                }
            },
            Executor::Project(p) => {
                let inner = p.child.close();
                match inner {
                    Ok(_) => Ok(()),
                    Err(_) => Ok(()),
                }
            },
        }
    }
}

/// The shape of a pushed row list grows by the pushed row's shape.
pub proof fn lemma_ctxsv_push(v: Seq<ExecutionContext>, x: ExecutionContext)
    ensures
        ctxsv(v.push(x)) == ctxsv(v).push(ctxv(x)),
{
    assert(ctxsv(v.push(x)) =~= ctxsv(v).push(ctxv(x)));
}

} // verus!
