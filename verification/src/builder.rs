//! The logical plan builder: graph-pattern decomposition into paths, one
//! scan-and-expand chain per path, a Cartesian join across paths, then
//! selection and projection.

use vstd::prelude::*;
use crate::ast::{
    Direction, Expr as ASTExpr, MatchClause, Pattern, Query, ReadingClause, SpecExpr,
    SpecMatchClause, SpecNodePattern, SpecPattern, SpecQuery, SpecReadingClause, SpecRelPattern,
    SpecUnion, Union, exprv, matchv, patternv, queryv, unionv,
};
use crate::error::{Error, ErrorKind};
use crate::plan::{
    ExpandExpr, JoinExpr, JoinType, ProjectExpr, RelExpr, ScalarExpr, ScanExpr, SelectExpr,
    SpecRel, SpecScalar, aliasedv, relov, scalarv,
};

verus! {

// ------------------------------------------------------------------
// Path discovery over a pattern's directed adjacency
// ------------------------------------------------------------------

/// Node `v` has an edge down to `v - 1`: relationship `v - 1` points left.
pub open spec fn has_down(p: SpecPattern, v: int) -> bool {
    v > 0 && v - 1 < p.rels.len() && p.rels[v - 1].direction is Left
}

/// Node `v` has an edge up to `v + 1`: relationship `v` points right.
pub open spec fn has_up(p: SpecPattern, v: int) -> bool {
    0 <= v < p.rels.len() && p.rels[v].direction is Right
}

/// Node `v` is a start: no edge points at it.
pub open spec fn sp_start(p: SpecPattern, v: int) -> bool {
    &&& !(v > 0 && v - 1 < p.rels.len() && p.rels[v - 1].direction is Right)
    &&& !(0 <= v < p.rels.len() && p.rels[v].direction is Left)
}

/// The maximal walk downward from `v`: every step follows a left-pointing
/// relationship.
pub open spec fn walk_down(p: SpecPattern, v: int) -> Seq<int>
    decreases v,
{
    if has_down(p, v) {
        seq![v] + walk_down(p, v - 1)
    } else {
        seq![v]
    }
}

/// The maximal walk upward from `v`: every step follows a right-pointing
/// relationship.
pub open spec fn walk_up(p: SpecPattern, v: int) -> Seq<int>
    decreases p.rels.len() - v,
{
    if has_up(p, v) {
        seq![v] + walk_up(p, v + 1)
    } else {
        seq![v]
    }
}

/// The maximal paths leaving `v`, downward walk first; a lone node yields
/// the one-node path.
pub open spec fn sp_paths_from(p: SpecPattern, v: int) -> Seq<Seq<int>> {
    if !has_down(p, v) && !has_up(p, v) {
        seq![seq![v]]
    } else {
        (if has_down(p, v) {
            seq![walk_down(p, v)]
        } else {
            Seq::empty()
        }) + (if has_up(p, v) {
            seq![walk_up(p, v)]
        } else {
            Seq::empty()
        })
    }
}

/// The paths from every start node with index below `n`, in index order.
pub open spec fn sp_paths_upto(p: SpecPattern, n: int) -> Seq<Seq<int>>
    decreases n,
{
    if n <= 0 {
        Seq::empty()
    } else {
        sp_paths_upto(p, n - 1) + (if sp_start(p, n - 1) {
            sp_paths_from(p, n - 1)
        } else {
            Seq::empty()
        })
    }
}

/// Every maximal path of the pattern, from every start node.
pub open spec fn sp_paths(p: SpecPattern) -> Seq<Seq<int>> {
    sp_paths_upto(p, p.nodes.len() as int)
}

// ------------------------------------------------------------------
// Plans
// ------------------------------------------------------------------

/// The scan for a path's first node: its name and first label, or a scan
/// of everything when no label is given.
pub open spec fn sp_scan(node: SpecNodePattern) -> SpecRel {
    SpecRel::Scan {
        name: node.name,
        all: node.labels.len() == 0,
        label: if node.labels.len() == 0 {
            Seq::empty()
        } else {
            node.labels[0]
        },
    }
}

/// The hop from `start` to `end` over `rel`; a relationship without a
/// type or an end node without a label is unsupported.
pub open spec fn sp_expand(
    child: SpecRel,
    start: SpecNodePattern,
    end: SpecNodePattern,
    rel: SpecRelPattern,
) -> Option<SpecRel> {
    if rel.types.len() == 0 || end.labels.len() == 0 {
        None
    } else {
        Some(
            SpecRel::Expand {
                start: start.name,
                end: end.name,
                rel: rel.name,
                rel_type: rel.types[0],
                end_label: end.labels[0],
                child: Box::new(child),
            },
        )
    }
}

/// The plan of one path: a scan of its first node, then one hop per
/// following node; the relationship of a step is the lesser node index.
pub open spec fn sp_path_plan(p: SpecPattern, path: Seq<int>) -> Option<SpecRel>
    decreases path.len(),
{
    if path.len() == 0 {
        None
    } else if path.len() == 1 {
        Some(sp_scan(p.nodes[path[0]]))
    } else {
        match sp_path_plan(p, path.drop_last()) {
            None => None,
            Some(child) => {
                let a = path[path.len() - 2];
                let b = path.last();
                let rel_idx = if a < b {
                    a
                } else {
                    b
                };
                sp_expand(child, p.nodes[a], p.nodes[b], p.rels[rel_idx])
            },
        }
    }
}

/// The plans of a list of paths.
pub open spec fn sp_paths_plans(p: SpecPattern, paths: Seq<Seq<int>>) -> Option<Seq<SpecRel>>
    decreases paths.len(),
{
    if paths.len() == 0 {
        Some(Seq::empty())
    } else {
        match (sp_path_plan(p, paths[0]), sp_paths_plans(p, paths.drop_first())) {
            (Some(h), Some(t)) => Some(seq![h] + t),
            _ => None,
        }
    }
}

/// The plans of every path of one pattern.
pub open spec fn sp_pattern_plans(p: SpecPattern) -> Option<Seq<SpecRel>> {
    sp_paths_plans(p, sp_paths(p))
}

/// The plans of every path of every pattern of a clause, in order.
pub open spec fn sp_clause_plans(pats: Seq<SpecPattern>) -> Option<Seq<SpecRel>>
    decreases pats.len(),
{
    if pats.len() == 0 {
        Some(Seq::empty())
    } else {
        match (sp_pattern_plans(pats[0]), sp_clause_plans(pats.drop_first())) {
            (Some(a), Some(b)) => Some(a + b),
            _ => None,
        }
    }
}

/// Left-to-right Cartesian join of the per-path plans; none is a failure.
pub open spec fn sp_join_fold(plans: Seq<SpecRel>) -> Option<SpecRel>
    decreases plans.len(),
{
    if plans.len() == 0 {
        None
    } else if plans.len() == 1 {
        Some(plans[0])
    } else {
        match sp_join_fold(plans.drop_last()) {
            Some(acc) => Some(SpecRel::Join(Box::new(acc), Box::new(plans.last()))),
            None => None,
        }
    }
}

/// The supported scalar subset: variables, literals, property lookup,
/// equality and conjunction; anything else is unsupported.
pub open spec fn sp_build_scalar(e: SpecExpr) -> Option<SpecScalar>
    decreases e,
{
    match e {
        SpecExpr::Variable(n) => Some(SpecScalar::Variable(n)),
        SpecExpr::Equal(l, r) => match (sp_build_scalar(*l), sp_build_scalar(*r)) {
            (Some(a), Some(b)) => Some(SpecScalar::Equal(Box::new(a), Box::new(b))),
            _ => None,
        },
        SpecExpr::And(l, r) => match (sp_build_scalar(*l), sp_build_scalar(*r)) {
            (Some(a), Some(b)) => Some(SpecScalar::LogicAnd(Box::new(a), Box::new(b))),
            _ => None,
        },
        SpecExpr::Lookup(c, nm) => match sp_build_scalar(*c) {
            Some(a) => Some(SpecScalar::Lookup(Box::new(a), nm)),
            None => None,
        },
        SpecExpr::Number(n) => Some(SpecScalar::Number(n)),
        SpecExpr::Str(s) => Some(SpecScalar::Str(s)),
        _ => None,
    }
}

/// The scalar plans of a projection list; any unsupported item fails.
pub open spec fn sp_build_projects(projs: Seq<(SpecExpr, Seq<char>)>) -> Option<
    Seq<(SpecScalar, Seq<char>)>,
>
    decreases projs.len(),
{
    if projs.len() == 0 {
        Some(Seq::empty())
    } else {
        match (sp_build_scalar(projs[0].0), sp_build_projects(projs.drop_first())) {
            (Some(h), Some(t)) => Some(seq![(h, projs[0].1)] + t),
            _ => None,
        }
    }
}

/// The plan of a match clause: per-path plans joined, then a selection
/// when a predicate is present.
pub open spec fn sp_build_match(m: SpecMatchClause) -> Option<SpecRel> {
    match sp_clause_plans(m.pattern) {
        None => None,
        Some(plans) => match sp_join_fold(plans) {
            None => None,
            Some(plan) => if m.filter.len() == 0 {
                Some(plan)
            } else {
                match sp_build_scalar(m.filter[0]) {
                    Some(sc) => Some(
                        SpecRel::Selection { filter: seq![sc], child: Box::new(plan) },
                    ),
                    None => None,
                }
            },
        },
    }
}

/// The plan of a union branch: its match clause under its projection.
pub open spec fn sp_build_union(u: SpecUnion) -> Option<SpecRel> {
    match u.reading_clause {
        Some(SpecReadingClause::Match(m)) => match sp_build_match(m) {
            Some(plan) => match sp_build_projects(u.return_clause.projections) {
                Some(projects) => Some(
                    SpecRel::Projection {
                        projects,
                        star: u.return_clause.star,
                        child: Box::new(plan),
                    },
                ),
                None => None,
            },
            None => None,
        },
        _ => None,
    }
}

/// The plan of a query: exactly one union branch is supported.
pub open spec fn sp_build(q: SpecQuery) -> Option<SpecRel> {
    if q.unions.len() == 1 {
        sp_build_union(q.unions[0])
    } else {
        None
    }
}

// ------------------------------------------------------------------
// Executable builder
// ------------------------------------------------------------------

/// The shapes of a list of node indices.
pub open spec fn idxv(v: Seq<usize>) -> Seq<int> {
    Seq::new(v.len(), |i: int| v[i] as int)
}

/// The shapes of a list of paths.
pub open spec fn pathsv(v: Seq<Vec<usize>>) -> Seq<Seq<int>> {
    Seq::new(v.len(), |i: int| idxv(v[i]@))
}

/// The shapes of a list of plans.
pub open spec fn plansv(v: Seq<RelExpr>) -> Seq<SpecRel> {
    Seq::new(v.len(), |i: int| relov(v[i]))
}

/// Whether a path is a chain of valid adjacent node indices, each step a
/// valid relationship.
pub open spec fn path_ok(p: SpecPattern, path: Seq<int>) -> bool {
    &&& path.len() >= 1
    &&& forall|k: int| 0 <= k < path.len() ==> 0 <= #[trigger] path[k] < p.nodes.len()
    &&& forall|k: int|
        0 <= k < path.len() - 1 ==> (#[trigger] path[k + 1] == path[k] + 1 || path[k + 1] == path[k]
            - 1)
}

/// Walks downward from `v`, collecting the node indices.
fn walk_down_exec(p: &Pattern, v: usize) -> (r: Vec<usize>)
    requires
        patternv(*p).wf(),
        v < p.nodes@.len(),
    ensures
        idxv(r@) == walk_down(patternv(*p), v as int),
        path_ok(patternv(*p), idxv(r@)),
    decreases v,
{
    let mut out: Vec<usize> = Vec::new();
    out.push(v);
    if v > 0 && v - 1 < p.rels.len() {
        let is_left = match p.rels[v - 1].direction {
            Direction::Left => true,
            Direction::Right => false,
        };
        if is_left {
            let mut rest = walk_down_exec(p, v - 1);
            let ghost rest0 = rest@;
            out.append(&mut rest);
            proof {
                assert(idxv(out@) =~= walk_down(patternv(*p), v as int));
                assert(walk_down(patternv(*p), v as int - 1)[0] == v as int - 1);
                assert(idxv(rest0)[0] == v as int - 1);
                assert forall|k: int| 0 <= k < idxv(out@).len() - 1 implies (#[trigger] idxv(
                    out@,
                )[k + 1] == idxv(out@)[k] + 1 || idxv(out@)[k + 1] == idxv(out@)[k] - 1) by {
                    if k == 0 {
                        assert(idxv(out@)[1] == idxv(rest0)[0]);
                    } else {
                        assert(idxv(out@)[k] == idxv(rest0)[k - 1]);
                        assert(idxv(out@)[k + 1] == idxv(rest0)[k]);
                        assert(idxv(rest0)[(k - 1) + 1] == idxv(rest0)[k - 1] + 1 || idxv(
                            rest0,
                        )[(k - 1) + 1] == idxv(rest0)[k - 1] - 1);
                    }
                }
            }
            return out;
        }
    }
    proof {
        assert(idxv(out@) =~= walk_down(patternv(*p), v as int));
    }
    out
}

/// Walks upward from `v`, collecting the node indices.
fn walk_up_exec(p: &Pattern, v: usize) -> (r: Vec<usize>)
    requires
        patternv(*p).wf(),
        v < p.nodes@.len(),
    ensures
        idxv(r@) == walk_up(patternv(*p), v as int),
        path_ok(patternv(*p), idxv(r@)),
    decreases p.rels@.len() - v,
{
    let mut out: Vec<usize> = Vec::new();
    out.push(v);
    if v < p.rels.len() {
        let is_right = match p.rels[v].direction {
            Direction::Left => false,
            Direction::Right => true,
        };
        if is_right {
            let mut rest = walk_up_exec(p, v + 1);
            let ghost rest0 = rest@;
            out.append(&mut rest);
            proof {
                assert(idxv(out@) =~= walk_up(patternv(*p), v as int));
                assert(walk_up(patternv(*p), v as int + 1)[0] == v as int + 1);
                assert(idxv(rest0)[0] == v as int + 1);
                assert forall|k: int| 0 <= k < idxv(out@).len() - 1 implies (#[trigger] idxv(
                    out@,
                )[k + 1] == idxv(out@)[k] + 1 || idxv(out@)[k + 1] == idxv(out@)[k] - 1) by {
                    if k == 0 {
                        assert(idxv(out@)[1] == idxv(rest0)[0]);
                    } else {
                        assert(idxv(out@)[k] == idxv(rest0)[k - 1]);
                        assert(idxv(out@)[k + 1] == idxv(rest0)[k]);
                        assert(idxv(rest0)[(k - 1) + 1] == idxv(rest0)[k - 1] + 1 || idxv(
                            rest0,
                        )[(k - 1) + 1] == idxv(rest0)[k - 1] - 1);
                    }
                }
            }
            return out;
        }
    }
    proof {
        assert(idxv(out@) =~= walk_up(patternv(*p), v as int));
    }
    out
}

/// Whether node `v` is a start node.
fn is_start_exec(p: &Pattern, v: usize) -> (r: bool)
    requires
        v < p.nodes@.len(),
        patternv(*p).wf(),
    ensures
        r == sp_start(patternv(*p), v as int),
{
    if v > 0 && v - 1 < p.rels.len() {
        let incoming = match p.rels[v - 1].direction {
            Direction::Right => true,
            Direction::Left => false,
        };
        if incoming {
            return false;
        }
    }
    if v < p.rels.len() {
        let incoming = match p.rels[v].direction {
            Direction::Left => true,
            Direction::Right => false,
        };
        if incoming {
            return false;
        }
    }
    true
}

/// The maximal paths of a pattern, from every start node in index order.
fn resolve_paths(p: &Pattern) -> (r: Vec<Vec<usize>>)
    requires
        patternv(*p).wf(),
    ensures
        pathsv(r@) == sp_paths(patternv(*p)),
        forall|k: int| 0 <= k < r@.len() ==> path_ok(patternv(*p), #[trigger] pathsv(r@)[k]),
{
    let n = p.nodes.len();
    let mut out: Vec<Vec<usize>> = Vec::new();
    let mut v: usize = 0;
    proof {
        assert(pathsv(out@) =~= sp_paths_upto(patternv(*p), 0));
    }
    while v < n
        invariant
            n == p.nodes@.len(),
            v <= n,
            patternv(*p).wf(),
            pathsv(out@) == sp_paths_upto(patternv(*p), v as int),
            forall|k: int| 0 <= k < out@.len() ==> path_ok(patternv(*p), #[trigger] pathsv(out@)[k]),
        decreases n - v,
    {
        if is_start_exec(p, v) {
            let mut down = false;
            let mut up = false;
            if v > 0 && v - 1 < p.rels.len() {
                down = match p.rels[v - 1].direction {
                    Direction::Left => true,
                    Direction::Right => false,
                };
            }
            if v < p.rels.len() {
                up = match p.rels[v].direction {
                    Direction::Right => true,
                    Direction::Left => false,
                };
            }
            if !down && !up {
                let mut single: Vec<usize> = Vec::new();
                single.push(v);
                out.push(single);
                proof {
                    assert(idxv(out@.last()@) =~= seq![v as int]);
                    assert(pathsv(out@) =~= sp_paths_upto(patternv(*p), v + 1));
                }
            } else {
                if down {
                    let path = walk_down_exec(p, v);
                    out.push(path);
                }
                if up {
                    let path = walk_up_exec(p, v);
                    out.push(path);
                }
                proof {
                    assert(pathsv(out@) =~= sp_paths_upto(patternv(*p), v + 1));
                }
            }
        } else {
            proof {
                assert(pathsv(out@) =~= sp_paths_upto(patternv(*p), v + 1));
            }
        }
        v = v + 1;
    }
    out
}

/// Once a prefix of a path has no plan, the whole path has none.
pub proof fn lemma_path_plan_prefix_none(p: SpecPattern, path: Seq<int>, m: int)
    requires
        0 < m <= path.len(),
        sp_path_plan(p, path.take(m)) is None,
    ensures
        sp_path_plan(p, path) is None,
    decreases path.len() - m,
{
    if m == path.len() {
        assert(path.take(m) =~= path);
    } else {
        assert(path.take(m + 1).drop_last() =~= path.take(m));
        lemma_path_plan_prefix_none(p, path, m + 1);
    }
}

/// Builder for logical plans.
pub struct Builder {}

impl Builder {
    /// A builder.
    pub fn new() -> (r: Builder) {
        Builder {  }
    }

    /// Lowers a query into a logical plan. Succeeds exactly on queries of
    /// one `MATCH`-reading union whose predicate and projections stay in
    /// the supported scalar subset and whose hops carry a relationship
    /// type and an end label.
    pub fn build(&mut self, ast: &Query) -> (r: Result<RelExpr, Error>)
        requires
            queryv(*ast).wf(),
        ensures
            match r {
                Ok(re) => sp_build(queryv(*ast)) == Some(relov(re)),
                Err(e) => sp_build(queryv(*ast)) is None && e.kind == ErrorKind::Internal,
            },
    {
        if ast.unions.len() != 1 {
            return Err(Self::unsupported());
        }
        proof {
            assert(queryv(*ast).unions[0] == unionv(ast.unions@[0]));
            assert(queryv(*ast).unions[0].wf());
        }
        self.build_union(&ast.unions[0])
    }

    /// The error for an unsupported construct.
    fn unsupported() -> (r: Error)
        ensures
            r.kind == ErrorKind::Internal,
    {
        Error {
            msg: String::from_str("unsupported construct"),
            kind: ErrorKind::Internal,
        }
    }

    /// Lowers one union branch.
    fn build_union(&mut self, union: &Union) -> (r: Result<RelExpr, Error>)
        requires
            unionv(*union).wf(),
        ensures
            match r {
                Ok(re) => sp_build_union(unionv(*union)) == Some(relov(re)),
                Err(e) => sp_build_union(unionv(*union)) is None && e.kind == ErrorKind::Internal,
            },
    {
        let matched: RelExpr = match &union.reading_clause {
            Some(ReadingClause::Match(clause)) => {
                match self.build_match(clause) {
                    Ok(re) => re,
                    Err(e) => {
                        return Err(e);
                    },
                }
            },
            _ => {
                return Err(Self::unsupported());
            },
        };
        self.build_projection(matched, &union.return_clause)
    }

    /// Wraps a plan in the union's projection.
    fn build_projection(&mut self, expr: RelExpr, return_clause: &crate::ast::ReturnClause) -> (r:
        Result<RelExpr, Error>)
        ensures
            match r {
                Ok(re) => ({
                    let rv = crate::ast::returnv(*return_clause);
                    sp_build_projects(rv.projections) matches Some(projects) && relov(re)
                        == SpecRel::Projection {
                        projects,
                        star: rv.star,
                        child: Box::new(relov(expr)),
                    }
                }),
                Err(e) => sp_build_projects(crate::ast::returnv(*return_clause).projections)
                    is None && e.kind == ErrorKind::Internal,
            },
    {
        let mut projects: Vec<(ScalarExpr, String)> = Vec::new();
        let m = return_clause.projections.len();
        let mut i: usize = 0;
        proof {
            assert(crate::ast::returnv(*return_clause).projections.skip(0) =~= crate::ast::returnv(
                *return_clause,
            ).projections);
        }
        while i < m
            invariant
                m == return_clause.projections@.len(),
                i <= m,
                sp_build_projects(crate::ast::returnv(*return_clause).projections) matches Some(
                    all,
                ) ==> (sp_build_projects(
                    crate::ast::returnv(*return_clause).projections.skip(i as int),
                ) matches Some(rest) && all == aliasedv(projects@) + rest),
                sp_build_projects(crate::ast::returnv(*return_clause).projections.skip(i as int))
                    is Some ==> sp_build_projects(
                    crate::ast::returnv(*return_clause).projections,
                ) is Some,
            decreases m - i,
        {
            proof {
                assert(crate::ast::returnv(*return_clause).projections[i as int] == (
                    exprv(return_clause.projections@[i as int].0),
                    return_clause.projections@[i as int].1@,
                ));
                assert(crate::ast::returnv(*return_clause).projections.skip(i as int)[0]
                    == crate::ast::returnv(*return_clause).projections[i as int]);
                assert(crate::ast::returnv(*return_clause).projections.skip(
                    i as int,
                ).drop_first() =~= crate::ast::returnv(*return_clause).projections.skip(i + 1));
            }
            let scalar = match self.build_scalar(&return_clause.projections[i].0) {
                Ok(s) => s,
                Err(e) => {
                    return Err(e);
                },
            };
            let alias = return_clause.projections[i].1.clone();
            projects.push((scalar, alias));
            proof {
                match sp_build_projects(crate::ast::returnv(*return_clause).projections) {
                    Some(all) => {
                        assert(aliasedv(projects@) =~= aliasedv(projects@.drop_last()).push(
                            (scalarv(projects@.last().0), projects@.last().1@),
                        ));
                        assert(all =~= aliasedv(projects@) + sp_build_projects(
                            crate::ast::returnv(*return_clause).projections.skip(i + 1),
                        )->Some_0);
                    },
                    None => {},
                }
            }
            i = i + 1;
        }
        proof {
            assert(crate::ast::returnv(*return_clause).projections.skip(m as int)
                =~= Seq::<(SpecExpr, Seq<char>)>::empty());
            match sp_build_projects(crate::ast::returnv(*return_clause).projections) {
                Some(all) => {
                    assert(all =~= aliasedv(projects@));
                },
                None => {},
            }
        }
        Ok(
            RelExpr::Projection(
                ProjectExpr {
                    projects,
                    star: return_clause.star,
                    child: Box::new(expr),
                },
            ),
        )
    }

    /// Lowers a match clause.
    fn build_match(&mut self, match_clause: &MatchClause) -> (r: Result<RelExpr, Error>)
        requires
            matchv(*match_clause).wf(),
        ensures
            match r {
                Ok(re) => sp_build_match(matchv(*match_clause)) == Some(relov(re)),
                Err(e) => sp_build_match(matchv(*match_clause)) is None && e.kind
                    == ErrorKind::Internal,
            },
    {
        let mut plans: Vec<RelExpr> = Vec::new();
        let m = match_clause.pattern.len();
        let mut i: usize = 0;
        proof {
            assert(matchv(*match_clause).pattern.skip(0) =~= matchv(*match_clause).pattern);
        }
        while i < m
            invariant
                m == match_clause.pattern@.len(),
                i <= m,
                matchv(*match_clause).wf(),
                sp_clause_plans(matchv(*match_clause).pattern) matches Some(all) ==> (
                sp_clause_plans(matchv(*match_clause).pattern.skip(i as int)) matches Some(rest)
                    && all == plansv(plans@) + rest),
                sp_clause_plans(matchv(*match_clause).pattern.skip(i as int)) is Some
                    ==> sp_clause_plans(matchv(*match_clause).pattern) is Some,
            decreases m - i,
        {
            proof {
                assert(matchv(*match_clause).pattern[i as int] == patternv(
                    match_clause.pattern@[i as int],
                ));
                assert(matchv(*match_clause).pattern.skip(i as int)[0] == matchv(
                    *match_clause,
                ).pattern[i as int]);
                assert(matchv(*match_clause).pattern.skip(i as int).drop_first() =~= matchv(
                    *match_clause,
                ).pattern.skip(i + 1));
            }
            let mut pattern_plans = match self.build_pattern(&match_clause.pattern[i]) {
                Ok(ps) => ps,
                Err(e) => {
                    return Err(e);
                },
            };
            proof {
                assert(plansv(plans@ + pattern_plans@) =~= plansv(plans@) + plansv(
                    pattern_plans@,
                ));
            }
            plans.append(&mut pattern_plans);
            proof {
                match sp_clause_plans(matchv(*match_clause).pattern) {
                    Some(all) => {
                        assert(all =~= plansv(plans@) + sp_clause_plans(
                            matchv(*match_clause).pattern.skip(i + 1),
                        )->Some_0);
                    },
                    None => {},
                }
            }
            i = i + 1;
        }
        proof {
            assert(matchv(*match_clause).pattern.skip(m as int) =~= Seq::<SpecPattern>::empty());
            match sp_clause_plans(matchv(*match_clause).pattern) {
                Some(all) => {
                    assert(all =~= plansv(plans@));
                },
                None => {},
            }
        }
        let joined = match self.join_fold(plans) {
            Ok(re) => re,
            Err(e) => {
                return Err(e);
            },
        };
        if match_clause.filter.len() == 0 {
            proof {
                assert(matchv(*match_clause).filter.len() == 0);
            }
            Ok(joined)
        } else {
            proof {
                assert(matchv(*match_clause).filter[0] == exprv(match_clause.filter@[0]));
            }
            let scalar = match self.build_scalar(&match_clause.filter[0]) {
                Ok(s) => s,
                Err(e) => {
                    return Err(e);
                },
            };
            self.build_selection(joined, scalar)
        }
    }

    /// Wraps a plan in a single-conjunct selection.
    fn build_selection(&mut self, expr: RelExpr, predicate: ScalarExpr) -> (r: Result<
        RelExpr,
        Error,
    >)
        ensures
            r matches Ok(re) && relov(re) == (SpecRel::Selection {
                filter: seq![scalarv(predicate)],
                child: Box::new(relov(expr)),
            }),
    {
        let mut filter: Vec<ScalarExpr> = Vec::new();
        filter.push(predicate);
        let out = RelExpr::Selection(SelectExpr { filter, child: Box::new(expr) });
        proof {
            assert(crate::plan::scalarsv(seq![predicate]) =~= seq![scalarv(predicate)]);
        }
        Ok(out)
    }

    /// Joins the per-path plans left to right; an empty list is
    /// unsupported.
    fn join_fold(&mut self, plans: Vec<RelExpr>) -> (r: Result<RelExpr, Error>)
        ensures
            match r {
                Ok(re) => sp_join_fold(plansv(plans@)) == Some(relov(re)),
                Err(e) => sp_join_fold(plansv(plans@)) is None && e.kind == ErrorKind::Internal,
            },
    {
        let ghost orig = plans@;
        let mut rest = plans;
        if rest.len() == 0 {
            return Err(Self::unsupported());
        }
        let total: usize = rest.len();
        let first = rest.remove(0);
        let mut acc = first;
        let mut taken: usize = 1;
        proof {
            assert(rest@ =~= orig.skip(1));
            assert(plansv(orig).take(1) =~= seq![relov(orig[0])]);
        }
        while rest.len() > 0
            invariant
                taken + rest@.len() == orig.len(),
                orig.len() == total,
                1 <= taken <= total,
                rest@ == orig.skip(taken as int),
                sp_join_fold(plansv(orig).take(taken as int)) == Some(relov(acc)),
            decreases rest@.len(),
    {
            let head = rest.remove(0);
            proof {
                assert(orig.skip(taken as int)[0] == orig[taken as int]);
                assert(rest@ =~= orig.skip(taken + 1));
                assert(plansv(orig).take(taken + 1).drop_last() =~= plansv(orig).take(
                    taken as int,
                ));
                assert(plansv(orig).take(taken + 1).last() == relov(orig[taken as int]));
            }
            acc = RelExpr::Join(
                JoinExpr {
                    join_type: JoinType::CartesianProduct,
                    lhs: Box::new(acc),
                    rhs: Box::new(head),
                },
            );
            taken = taken + 1;
        }
        proof {
            assert(plansv(orig).take(taken as int) =~= plansv(orig));
        }
        Ok(acc)
    }

    /// Lowers one pattern into its per-path plans.
    fn build_pattern(&mut self, pattern: &Pattern) -> (r: Result<Vec<RelExpr>, Error>)
        requires
            patternv(*pattern).wf(),
        ensures
            match r {
                Ok(ps) => sp_pattern_plans(patternv(*pattern)) == Some(plansv(ps@)),
                Err(e) => sp_pattern_plans(patternv(*pattern)) is None && e.kind
                    == ErrorKind::Internal,
            },
    {
        let paths = resolve_paths(pattern);
        let mut out: Vec<RelExpr> = Vec::new();
        let total = paths.len();
        let mut i: usize = 0;
        proof {
            assert(sp_paths(patternv(*pattern)).skip(0) =~= sp_paths(patternv(*pattern)));
        }
        while i < total
            invariant
                total == paths@.len(),
                patternv(*pattern).wf(),
                i <= total,
                pathsv(paths@) == sp_paths(patternv(*pattern)),
                forall|k: int|
                    0 <= k < paths@.len() ==> path_ok(patternv(*pattern), #[trigger] pathsv(
                        paths@,
                    )[k]),
                sp_paths_plans(patternv(*pattern), sp_paths(patternv(*pattern))) matches Some(all)
                    ==> (sp_paths_plans(
                    patternv(*pattern),
                    sp_paths(patternv(*pattern)).skip(i as int),
                ) matches Some(rest) && all == plansv(out@) + rest),
                sp_paths_plans(patternv(*pattern), sp_paths(patternv(*pattern)).skip(i as int))
                    is Some ==> sp_paths_plans(
                    patternv(*pattern),
                    sp_paths(patternv(*pattern)),
                ) is Some,
            decreases total - i,
        {
            proof {
                assert(pathsv(paths@)[i as int] == idxv(paths@[i as int]@));
                assert(sp_paths(patternv(*pattern)).skip(i as int)[0] == pathsv(paths@)[i as int]);
                assert(sp_paths(patternv(*pattern)).skip(i as int).drop_first() =~= sp_paths(
                    patternv(*pattern),
                ).skip(i + 1));
            }
            let plan = match self.build_path_plan(pattern, &paths[i]) {
                Ok(p) => p,
                Err(e) => {
                    return Err(e);
                },
            };
            out.push(plan);
            proof {
                match sp_paths_plans(patternv(*pattern), sp_paths(patternv(*pattern))) {
                    Some(all) => {
                        assert(plansv(out@) =~= plansv(out@.drop_last()).push(
                            relov(out@.last()),
                        ));
                        assert(all =~= plansv(out@) + sp_paths_plans(
                            patternv(*pattern),
                            sp_paths(patternv(*pattern)).skip(i + 1),
                        )->Some_0);
                    },
                    None => {},
                }
            }
            i = i + 1;
        }
        proof {
            assert(sp_paths(patternv(*pattern)).skip(total as int) =~= Seq::<Seq<int>>::empty());
            match sp_paths_plans(patternv(*pattern), sp_paths(patternv(*pattern))) {
                Some(all) => {
                    assert(all =~= plansv(out@));
                },
                None => {},
            }
        }
        Ok(out)
    }

    /// Lowers one path: a scan, then one hop per following node.
    fn build_path_plan(&mut self, pattern: &Pattern, path: &Vec<usize>) -> (r: Result<
        RelExpr,
        Error,
    >)
        requires
            patternv(*pattern).wf(),
            path_ok(patternv(*pattern), idxv(path@)),
        ensures
            match r {
                Ok(re) => sp_path_plan(patternv(*pattern), idxv(path@)) == Some(relov(re)),
                Err(e) => sp_path_plan(patternv(*pattern), idxv(path@)) is None && e.kind
                    == ErrorKind::Internal,
            },
    {
        let len = path.len();
        let mut acc = self.build_scan(&pattern.nodes[path[0]]);
        proof {
            assert(idxv(path@).take(1) =~= seq![path@[0] as int]);
            assert(patternv(*pattern).nodes[path@[0] as int] == crate::ast::nodev(
                pattern.nodes@[path@[0] as int],
            ));
        }
        let mut k: usize = 1;
        while k < len
            invariant
                len == path@.len(),
                1 <= k <= len,
                patternv(*pattern).wf(),
                path_ok(patternv(*pattern), idxv(path@)),
                sp_path_plan(patternv(*pattern), idxv(path@).take(k as int)) == Some(relov(acc)),
            decreases len - k,
        {
            let a = path[k - 1];
            let b = path[k];
            let rel_idx = if a < b {
                a
            } else {
                b
            };
            proof {
                assert(idxv(path@)[k as int] == path@[k as int] as int);
                assert(idxv(path@)[k - 1] == path@[k - 1] as int);
                assert(idxv(path@).take(k + 1).drop_last() =~= idxv(path@).take(k as int));
                assert(idxv(path@).take(k + 1).last() == idxv(path@)[k as int]);
                assert(idxv(path@).take(k + 1)[k - 1] == idxv(path@)[k - 1]);
                assert(idxv(path@)[(k - 1) + 1] == idxv(path@)[k - 1] + 1 || idxv(path@)[(k - 1)
                    + 1] == idxv(path@)[k - 1] - 1);
                assert((rel_idx as int) < patternv(*pattern).rels.len());
            }
            let node_a = &pattern.nodes[a];
            let node_b = &pattern.nodes[b];
            let rel = &pattern.rels[rel_idx];
            if rel.types.len() == 0 || node_b.labels.len() == 0 {
                proof {
                    assert(crate::ast::relv(pattern.rels@[rel_idx as int]).types.len()
                        == pattern.rels@[rel_idx as int].types@.len());
                    assert(crate::ast::nodev(pattern.nodes@[b as int]).labels.len()
                        == pattern.nodes@[b as int].labels@.len());
                    assert(patternv(*pattern).rels[rel_idx as int] == crate::ast::relv(
                        pattern.rels@[rel_idx as int],
                    ));
                    assert(patternv(*pattern).nodes[b as int] == crate::ast::nodev(
                        pattern.nodes@[b as int],
                    ));
                    assert(sp_path_plan(patternv(*pattern), idxv(path@).take(k + 1)) is None);
                    lemma_path_plan_prefix_none(patternv(*pattern), idxv(path@), k + 1);
                }
                return Err(Self::unsupported());
            }
            acc = self.build_expand(acc, node_a, node_b, rel);
            proof {
                assert(crate::ast::nodev(pattern.nodes@[b as int]).labels[0]
                    == pattern.nodes@[b as int].labels@[0]@);
                assert(crate::ast::relv(pattern.rels@[rel_idx as int]).types[0]
                    == pattern.rels@[rel_idx as int].types@[0]@);
            }
            k = k + 1;
        }
        proof {
            assert(idxv(path@).take(len as int) =~= idxv(path@));
        }
        Ok(acc)
    }

    /// The scan of a path's first node.
    fn build_scan(&mut self, node_pattern: &crate::ast::NodePattern) -> (r: RelExpr)
        ensures
            relov(r) == sp_scan(crate::ast::nodev(*node_pattern)),
    {
        let all = node_pattern.labels.len() == 0;
        let label: String = if all {
            String::new()
        } else {
            node_pattern.labels[0].clone()
        };
        RelExpr::NodeScan(
            ScanExpr { binded_name: node_pattern.name.clone(), all, label },
        )
    }

    /// The hop from `start_node` to `end_node` over `rel`; the caller has
    /// checked that a type and an end label are present.
    fn build_expand(
        &mut self,
        expr: RelExpr,
        start_node: &crate::ast::NodePattern,
        end_node: &crate::ast::NodePattern,
        rel: &crate::ast::RelationshipPattern,
    ) -> (r: RelExpr)
        requires
            rel.types@.len() > 0,
            end_node.labels@.len() > 0,
        ensures
            sp_expand(
                relov(expr),
                crate::ast::nodev(*start_node),
                crate::ast::nodev(*end_node),
                crate::ast::relv(*rel),
            ) == Some(relov(r)),
    {
        proof {
            assert(crate::ast::relv(*rel).types[0] == rel.types@[0]@);
            assert(crate::ast::nodev(*end_node).labels[0] == end_node.labels@[0]@);
        }
        RelExpr::Expand(
            ExpandExpr {
                start_name: start_node.name.clone(),
                end_name: end_node.name.clone(),
                rel_name: rel.name.clone(),
                rel_type: rel.types[0].clone(),
                end_label: end_node.labels[0].clone(),
                child: Box::new(expr),
            },
        )
    }

    /// Lowers a scalar expression; kinds outside the supported subset are
    /// unsupported.
    pub fn build_scalar(&mut self, expr: &ASTExpr) -> (r: Result<ScalarExpr, Error>)
        ensures
            match r {
                Ok(s) => sp_build_scalar(exprv(*expr)) == Some(scalarv(s)),
                Err(e) => sp_build_scalar(exprv(*expr)) is None && e.kind == ErrorKind::Internal,
            },
        decreases *expr,
    {
        match expr {
            ASTExpr::Variable(name) => Ok(ScalarExpr::Variable(name.clone())),
            ASTExpr::EqualExpr(equal) => {
                let lhs = match self.build_scalar(&equal.lhs) {
                    Ok(s) => s,
                    Err(e) => {
                        return Err(e);
                    },
                };
                let rhs = match self.build_scalar(&equal.rhs) {
                    Ok(s) => s,
                    Err(e) => {
                        return Err(e);
                    },
                };
                Ok(ScalarExpr::Equal(Box::new(lhs), Box::new(rhs)))
            },
            ASTExpr::AndExpr(and) => {
                let lhs = match self.build_scalar(&and.lhs) {
                    Ok(s) => s,
                    Err(e) => {
                        return Err(e);
                    },
                };
                let rhs = match self.build_scalar(&and.rhs) {
                    Ok(s) => s,
                    Err(e) => {
                        return Err(e);
                    },
                };
                Ok(ScalarExpr::LogicAnd(Box::new(lhs), Box::new(rhs)))
            },
            ASTExpr::PropertyLookup(prop_lookup) => {
                let child = match self.build_scalar(&prop_lookup.child) {
                    Ok(s) => s,
                    Err(e) => {
                        return Err(e);
                    },
                };
                Ok(ScalarExpr::PropertyLookup(Box::new(child), prop_lookup.prop_name.clone()))
            },
            ASTExpr::NumberLit(n) => Ok(ScalarExpr::NumberLiteral(*n)),
            ASTExpr::StringLit(s) => Ok(ScalarExpr::StringLiteral(s.clone())),
            _ => Err(Self::unsupported()),
        }
    }
}

} // verus!
