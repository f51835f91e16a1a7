//! The logical plan: a relational-algebra tree over scans, hops, joins,
//! selections and projections, with the scalar expressions they carry.

use vstd::prelude::*;
use crate::types::Num;

verus! {

/// Any plan expression.
#[derive(Debug)]
pub enum Expr {
    Relational(RelExpr),
    Scalar(ScalarExpr),
}

/// A relational-algebra tree node, owning its children.
#[derive(Debug)]
pub enum RelExpr {
    NodeScan(ScanExpr),
    Join(JoinExpr),
    Expand(ExpandExpr),
    Selection(SelectExpr),
    Projection(ProjectExpr),
}

/// A scalar expression of the plan: the supported subset.
#[derive(Debug)]
pub enum ScalarExpr {
    Equal(Box<ScalarExpr>, Box<ScalarExpr>),
    LogicAnd(Box<ScalarExpr>, Box<ScalarExpr>),
    PropertyLookup(Box<ScalarExpr>, String),
    Variable(String),
    NumberLiteral(Num),
    StringLiteral(String),
}

/// A scan of every node under one label (or of everything).
#[derive(Debug)]
pub struct ScanExpr {
    pub binded_name: String,
    pub all: bool,
    pub label: String,
}

/// One relationship hop extending the child's matches.
#[derive(Debug)]
pub struct ExpandExpr {
    pub start_name: String,
    pub end_name: String,
    pub rel_name: String,
    pub rel_type: String,
    pub end_label: String,
    pub child: Box<RelExpr>,
}

/// How two sub-plans are combined.
#[derive(Debug, Clone, Copy, PartialEq, Eq, Structural)]
pub enum JoinType {
    CartesianProduct,
}

/// A combination of two independent sub-plans.
#[derive(Debug)]
pub struct JoinExpr {
    pub join_type: JoinType,
    pub lhs: Box<RelExpr>,
    pub rhs: Box<RelExpr>,
}

/// A filter over the child's rows: a conjunction list.
#[derive(Debug)]
pub struct SelectExpr {
    pub filter: Vec<ScalarExpr>,
    pub child: Box<RelExpr>,
}

/// A projection of the child's rows under aliases.
#[derive(Debug)]
pub struct ProjectExpr {
    pub projects: Vec<(ScalarExpr, String)>,
    pub star: bool,
    pub child: Box<RelExpr>,
}

// ------------------------------------------------------------------
// Mathematical shapes
// ------------------------------------------------------------------

/// The shape of a scalar plan expression.
pub enum SpecScalar {
    Equal(Box<SpecScalar>, Box<SpecScalar>),
    LogicAnd(Box<SpecScalar>, Box<SpecScalar>),
    Lookup(Box<SpecScalar>, Seq<char>),
    Variable(Seq<char>),
    Number(Num),
    Str(Seq<char>),
}

/// The shape of a relational plan node.
pub enum SpecRel {
    Scan { name: Seq<char>, all: bool, label: Seq<char> },
    Expand {
        start: Seq<char>,
        end: Seq<char>,
        rel: Seq<char>,
        rel_type: Seq<char>,
        end_label: Seq<char>,
        child: Box<SpecRel>,
    },
    Join(Box<SpecRel>, Box<SpecRel>),
    Selection { filter: Seq<SpecScalar>, child: Box<SpecRel> },
    Projection { projects: Seq<(SpecScalar, Seq<char>)>, star: bool, child: Box<SpecRel> },
}

/// The shape of a scalar plan expression.
pub open spec fn scalarv(e: ScalarExpr) -> SpecScalar
    decreases e,
{
    match e {
        ScalarExpr::Equal(l, r) => SpecScalar::Equal(Box::new(scalarv(*l)), Box::new(scalarv(*r))),
        ScalarExpr::LogicAnd(l, r) => SpecScalar::LogicAnd(
            Box::new(scalarv(*l)),
            Box::new(scalarv(*r)),
        ),
        ScalarExpr::PropertyLookup(c, nm) => SpecScalar::Lookup(Box::new(scalarv(*c)), nm@),
        ScalarExpr::Variable(nm) => SpecScalar::Variable(nm@),
        ScalarExpr::NumberLiteral(n) => SpecScalar::Number(n),
        ScalarExpr::StringLiteral(s) => SpecScalar::Str(s@),
    }
}

/// The shapes of a list of scalar expressions.
pub open spec fn scalarsv(v: Seq<ScalarExpr>) -> Seq<SpecScalar> {
    Seq::new(v.len(), |i: int| scalarv(v[i]))
}

/// The shapes of an aliased projection list.
pub open spec fn aliasedv(v: Seq<(ScalarExpr, String)>) -> Seq<(SpecScalar, Seq<char>)> {
    Seq::new(v.len(), |i: int| (scalarv(v[i].0), v[i].1@))
}

/// The shape of a relational plan node.
pub open spec fn relov(e: RelExpr) -> SpecRel
    decreases e,
{
    match e {
        RelExpr::NodeScan(s) => SpecRel::Scan { name: s.binded_name@, all: s.all, label: s.label@ },
        RelExpr::Expand(x) => SpecRel::Expand {
            start: x.start_name@,
            end: x.end_name@,
            rel: x.rel_name@,
            rel_type: x.rel_type@,
            end_label: x.end_label@,
            child: Box::new(relov(*x.child)),
        },
        RelExpr::Join(j) => SpecRel::Join(Box::new(relov(*j.lhs)), Box::new(relov(*j.rhs))),
        RelExpr::Selection(s) => SpecRel::Selection {
            filter: scalarsv(s.filter@),
            child: Box::new(relov(*s.child)),
        },
        RelExpr::Projection(p) => SpecRel::Projection {
            projects: aliasedv(p.projects@),
            star: p.star,
            child: Box::new(relov(*p.child)),
        },
    }
}

impl ScalarExpr {
    /// A deep copy denoting the same expression.
    pub fn dup(&self) -> (r: ScalarExpr)
        ensures
            scalarv(r) == scalarv(*self),
        decreases *self,
    {
        match self {
            ScalarExpr::Equal(l, r) => ScalarExpr::Equal(Box::new(l.dup()), Box::new(r.dup())),
            ScalarExpr::LogicAnd(l, r) => ScalarExpr::LogicAnd(
                Box::new(l.dup()),
                Box::new(r.dup()),
            ),
            ScalarExpr::PropertyLookup(c, nm) => ScalarExpr::PropertyLookup(
                Box::new(c.dup()),
                nm.clone(),
            ),
            ScalarExpr::Variable(nm) => ScalarExpr::Variable(nm.clone()),
            ScalarExpr::NumberLiteral(n) => ScalarExpr::NumberLiteral(*n),
            ScalarExpr::StringLiteral(s) => ScalarExpr::StringLiteral(s.clone()),
        }
    }
}
/// The labels and relationship types a plan reads tables for, children
/// first, in the order execution touches them.
pub open spec fn sp_labels_needed(r: SpecRel) -> Seq<Seq<char>>
    decreases r,
{
    match r {
        SpecRel::Scan { label, .. } => seq![label],
        SpecRel::Expand { rel_type, end_label, child, .. } => sp_labels_needed(*child) + seq![
            rel_type,
            end_label,
        ],
        SpecRel::Join(l, rhs) => sp_labels_needed(*l) + sp_labels_needed(*rhs),
        SpecRel::Selection { child, .. } => sp_labels_needed(*child),
        SpecRel::Projection { child, .. } => sp_labels_needed(*child),
    }
}

impl RelExpr {
    /// Every label or relationship type this plan reads a table for,
    /// children first; what a caller prefetches before execution.
    pub fn labels_needed(&self) -> (r: Vec<String>)
        ensures
            Seq::new(r@.len(), |i: int| r@[i]@) == sp_labels_needed(relov(*self)),
        decreases *self,
    {
        match self {
            RelExpr::NodeScan(s) => {
                let mut out: Vec<String> = Vec::new();
                out.push(s.label.clone());
                proof {
                    assert(Seq::new(out@.len(), |i: int| out@[i]@) =~= sp_labels_needed(
                        relov(*self),
                    ));
                }
                out
            },
            RelExpr::Expand(x) => {
                let mut out = x.child.labels_needed();
                out.push(x.rel_type.clone());
                out.push(x.end_label.clone());
                proof {
                    assert(Seq::new(out@.len(), |i: int| out@[i]@) =~= sp_labels_needed(
                        relov(*self),
                    ));
                }
                out
            },
            RelExpr::Join(j) => {
                let mut out = j.lhs.labels_needed();
                let mut rhs = j.rhs.labels_needed();
                out.append(&mut rhs);
                proof {
                    assert(Seq::new(out@.len(), |i: int| out@[i]@) =~= sp_labels_needed(
                        relov(*self),
                    ));
                }
                out
            },
            RelExpr::Selection(s) => {
                let out = s.child.labels_needed();
                proof {
                    assert(Seq::new(out@.len(), |i: int| out@[i]@) =~= sp_labels_needed(
                        relov(*self),
                    ));
                }
                out
            },
            RelExpr::Projection(pr) => {
                let out = pr.child.labels_needed();
                proof {
                    assert(Seq::new(out@.len(), |i: int| out@[i]@) =~= sp_labels_needed(
                        relov(*self),
                    ));
                }
                out
            },
        }
    }
}

} // verus!
