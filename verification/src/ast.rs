//! The abstract syntax tree produced by the parser, together with its
//! mathematical shape (the `Spec*` types) that contracts speak of.

use vstd::prelude::*;
use crate::types::Num;

verus! {

/// A parsed statement.
#[derive(Debug)]
pub enum Stmt {
    CypherQuery(Query),
}

/// Sort direction of an `ORDER BY` item (parsed shape only; unused).
#[derive(Debug, Clone, Copy, PartialEq, Eq, Structural)]
pub enum SortOrdering {
    Ascending,
    Descending,
}

/// A whole query: a list of unions plus unused sort/skip/limit slots.
#[derive(Debug)]
pub struct Query {
    pub unions: Vec<Union>,
    pub sort_items: Vec<Expr>,
    pub ordering: Option<SortOrdering>,
    pub skip: Option<Expr>,
    pub limit: Option<Expr>,
}

/// One branch of a union: a reading clause and a return clause.
#[derive(Debug)]
pub struct Union {
    pub reading_clause: Option<ReadingClause>,
    pub updating_clauses: Vec<UpdatingClause>,
    pub return_clause: ReturnClause,
}

/// The reading clause of a union.
#[derive(Debug)]
pub enum ReadingClause {
    Match(MatchClause),
    Unwind,
}

/// A `MATCH` clause: comma-separated patterns and an optional `WHERE`
/// predicate (at most one element in `filter`).
#[derive(Debug)]
pub struct MatchClause {
    pub pattern: Vec<Pattern>,
    pub filter: Vec<Expr>,
}

/// A node pattern `(name :Label1:Label2)`; the name may be empty.
#[derive(Debug)]
pub struct NodePattern {
    pub name: String,
    pub labels: Vec<String>,
}

/// Which way a relationship pattern points in source order.
#[derive(Debug, Clone, Copy, PartialEq, Eq, Structural)]
pub enum Direction {
    Left,
    Right,
}

/// A relationship pattern `-[name :Type]->` or `<-[name :Type]-`.
#[derive(Debug)]
pub struct RelationshipPattern {
    pub name: String,
    pub direction: Direction,
    pub types: Vec<String>,
}

/// A path-shaped pattern: relationship `i` connects nodes `i` and `i + 1`.
#[derive(Debug)]
pub struct Pattern {
    pub nodes: Vec<NodePattern>,
    pub rels: Vec<RelationshipPattern>,
}

/// Updating clauses are recognized by name only; none is supported.
#[derive(Debug, Clone, Copy, PartialEq, Eq, Structural)]
pub enum UpdatingClause {
    Create,
    Merge,
    Remove,
    SetClause,
}

/// The `RETURN` clause: a `*` flag and aliased projection expressions.
#[derive(Debug)]
pub struct ReturnClause {
    pub star: bool,
    pub projections: Vec<(Expr, String)>,
}

/// A scalar expression tree.
#[derive(Debug)]
pub enum Expr {
    EqualExpr(EqualExpr),
    NotEqualExpr(NotEqualExpr),
    LessExpr(LessExpr),
    GreaterExpr(GreaterExpr),
    LessEqualExpr(LessEqualExpr),
    GreaterEqualExpr(GreaterEqualExpr),
    AndExpr(AndExpr),
    XorExpr(XorExpr),
    OrExpr(OrExpr),
    NotExpr(NotExpr),
    AddExpr(AddExpr),
    SubExpr(SubExpr),
    MultExpr(MultExpr),
    DivExpr(DivExpr),
    PowerExpr(PowerExpr),
    UnarySubExpr(UnarySubExpr),
    NumberLit(Num),
    StringLit(String),
    BooleanLit(bool),
    Variable(String),
    PropertyLookup(PropertyLookup),
}

#[derive(Debug)]
pub struct EqualExpr {
    pub lhs: Box<Expr>,
    pub rhs: Box<Expr>,
}

#[derive(Debug)]
pub struct NotEqualExpr {
    pub lhs: Box<Expr>,
    pub rhs: Box<Expr>,
}

#[derive(Debug)]
pub struct LessExpr {
    pub lhs: Box<Expr>,
    pub rhs: Box<Expr>,
}

#[derive(Debug)]
pub struct LessEqualExpr {
    pub lhs: Box<Expr>,
    pub rhs: Box<Expr>,
}

#[derive(Debug)]
pub struct GreaterExpr {
    pub lhs: Box<Expr>,
    pub rhs: Box<Expr>,
}

#[derive(Debug)]
pub struct GreaterEqualExpr {
    pub lhs: Box<Expr>,
    pub rhs: Box<Expr>,
}

#[derive(Debug)]
pub struct AndExpr {
    pub lhs: Box<Expr>,
    pub rhs: Box<Expr>,
}

#[derive(Debug)]
pub struct OrExpr {
    pub lhs: Box<Expr>,
    pub rhs: Box<Expr>,
}

#[derive(Debug)]
pub struct XorExpr {
    pub lhs: Box<Expr>,
    pub rhs: Box<Expr>,
}

#[derive(Debug)]
pub struct NotExpr {
    pub child: Box<Expr>,
}

#[derive(Debug)]
pub struct AddExpr {
    pub lhs: Box<Expr>,
    pub rhs: Box<Expr>,
}

#[derive(Debug)]
pub struct SubExpr {
    pub lhs: Box<Expr>,
    pub rhs: Box<Expr>,
}

#[derive(Debug)]
pub struct MultExpr {
    pub lhs: Box<Expr>,
    pub rhs: Box<Expr>,
}

#[derive(Debug)]
pub struct DivExpr {
    pub lhs: Box<Expr>,
    pub rhs: Box<Expr>,
}

#[derive(Debug)]
pub struct PowerExpr {
    pub lhs: Box<Expr>,
    pub rhs: Box<Expr>,
}

#[derive(Debug)]
pub struct UnarySubExpr {
    pub child: Box<Expr>,
}

#[derive(Debug)]
pub struct PropertyLookup {
    pub child: Box<Expr>,
    pub prop_name: String,
}

// ------------------------------------------------------------------
// Mathematical shapes
// ------------------------------------------------------------------

/// The shape of an expression tree; string payloads become `Seq<char>`.
pub enum SpecExpr {
    Equal(Box<SpecExpr>, Box<SpecExpr>),
    NotEqual(Box<SpecExpr>, Box<SpecExpr>),
    Less(Box<SpecExpr>, Box<SpecExpr>),
    LessEqual(Box<SpecExpr>, Box<SpecExpr>),
    Greater(Box<SpecExpr>, Box<SpecExpr>),
    GreaterEqual(Box<SpecExpr>, Box<SpecExpr>),
    And(Box<SpecExpr>, Box<SpecExpr>),
    Xor(Box<SpecExpr>, Box<SpecExpr>),
    Or(Box<SpecExpr>, Box<SpecExpr>),
    Not(Box<SpecExpr>),
    Add(Box<SpecExpr>, Box<SpecExpr>),
    Sub(Box<SpecExpr>, Box<SpecExpr>),
    Mult(Box<SpecExpr>, Box<SpecExpr>),
    Div(Box<SpecExpr>, Box<SpecExpr>),
    Power(Box<SpecExpr>, Box<SpecExpr>),
    UnarySub(Box<SpecExpr>),
    Number(Num),
    Str(Seq<char>),
    Boolean(bool),
    Variable(Seq<char>),
    Lookup(Box<SpecExpr>, Seq<char>),
}

/// The shape of an expression.
pub open spec fn exprv(e: Expr) -> SpecExpr
    decreases e,
{
    match e {
        Expr::EqualExpr(x) => SpecExpr::Equal(Box::new(exprv(*x.lhs)), Box::new(exprv(*x.rhs))),
        Expr::NotEqualExpr(x) => SpecExpr::NotEqual(
            Box::new(exprv(*x.lhs)),
            Box::new(exprv(*x.rhs)),
        ),
        Expr::LessExpr(x) => SpecExpr::Less(Box::new(exprv(*x.lhs)), Box::new(exprv(*x.rhs))),
        Expr::LessEqualExpr(x) => SpecExpr::LessEqual(
            Box::new(exprv(*x.lhs)),
            Box::new(exprv(*x.rhs)),
        ),
        Expr::GreaterExpr(x) => SpecExpr::Greater(Box::new(exprv(*x.lhs)), Box::new(exprv(*x.rhs))),
        Expr::GreaterEqualExpr(x) => SpecExpr::GreaterEqual(
            Box::new(exprv(*x.lhs)),
            Box::new(exprv(*x.rhs)),
        ),
        Expr::AndExpr(x) => SpecExpr::And(Box::new(exprv(*x.lhs)), Box::new(exprv(*x.rhs))),
        Expr::XorExpr(x) => SpecExpr::Xor(Box::new(exprv(*x.lhs)), Box::new(exprv(*x.rhs))),
        Expr::OrExpr(x) => SpecExpr::Or(Box::new(exprv(*x.lhs)), Box::new(exprv(*x.rhs))),
        Expr::NotExpr(x) => SpecExpr::Not(Box::new(exprv(*x.child))),
        Expr::AddExpr(x) => SpecExpr::Add(Box::new(exprv(*x.lhs)), Box::new(exprv(*x.rhs))),
        Expr::SubExpr(x) => SpecExpr::Sub(Box::new(exprv(*x.lhs)), Box::new(exprv(*x.rhs))),
        Expr::MultExpr(x) => SpecExpr::Mult(Box::new(exprv(*x.lhs)), Box::new(exprv(*x.rhs))),
        Expr::DivExpr(x) => SpecExpr::Div(Box::new(exprv(*x.lhs)), Box::new(exprv(*x.rhs))),
        Expr::PowerExpr(x) => SpecExpr::Power(Box::new(exprv(*x.lhs)), Box::new(exprv(*x.rhs))),
        Expr::UnarySubExpr(x) => SpecExpr::UnarySub(Box::new(exprv(*x.child))),
        Expr::NumberLit(n) => SpecExpr::Number(n),
        Expr::StringLit(s) => SpecExpr::Str(s@),
        Expr::BooleanLit(b) => SpecExpr::Boolean(b),
        Expr::Variable(s) => SpecExpr::Variable(s@),
        Expr::PropertyLookup(x) => SpecExpr::Lookup(Box::new(exprv(*x.child)), x.prop_name@),
    }
}

/// The shape of a node pattern.
pub struct SpecNodePattern {
    pub name: Seq<char>,
    pub labels: Seq<Seq<char>>,
}

/// The shape of a relationship pattern.
pub struct SpecRelPattern {
    pub name: Seq<char>,
    pub direction: Direction,
    pub types: Seq<Seq<char>>,
}

/// The shape of a pattern.
pub struct SpecPattern {
    pub nodes: Seq<SpecNodePattern>,
    pub rels: Seq<SpecRelPattern>,
}

/// The shape of a match clause.
pub struct SpecMatchClause {
    pub pattern: Seq<SpecPattern>,
    pub filter: Seq<SpecExpr>,
}

/// The shape of a reading clause.
pub enum SpecReadingClause {
    Match(SpecMatchClause),
    Unwind,
}

/// The shape of a return clause.
pub struct SpecReturnClause {
    pub star: bool,
    pub projections: Seq<(SpecExpr, Seq<char>)>,
}

/// The shape of a union branch.
pub struct SpecUnion {
    pub reading_clause: Option<SpecReadingClause>,
    pub updating_clauses: Seq<UpdatingClause>,
    pub return_clause: SpecReturnClause,
}

/// The shape of a query.
pub struct SpecQuery {
    pub unions: Seq<SpecUnion>,
    pub sort_items: Seq<SpecExpr>,
    pub ordering: Option<SortOrdering>,
    pub skip: Option<SpecExpr>,
    pub limit: Option<SpecExpr>,
}

/// The shape of a node pattern.
pub open spec fn nodev(n: NodePattern) -> SpecNodePattern {
    SpecNodePattern { name: n.name@, labels: Seq::new(n.labels@.len(), |i: int| n.labels@[i]@) }
}

/// The shape of a relationship pattern.
pub open spec fn relv(r: RelationshipPattern) -> SpecRelPattern {
    SpecRelPattern {
        name: r.name@,
        direction: r.direction,
        types: Seq::new(r.types@.len(), |i: int| r.types@[i]@),
    }
}

/// The shape of a pattern.
pub open spec fn patternv(p: Pattern) -> SpecPattern {
    SpecPattern {
        nodes: Seq::new(p.nodes@.len(), |i: int| nodev(p.nodes@[i])),
        rels: Seq::new(p.rels@.len(), |i: int| relv(p.rels@[i])),
    }
}

/// The shape of a match clause.
pub open spec fn matchv(m: MatchClause) -> SpecMatchClause {
    SpecMatchClause {
        pattern: Seq::new(m.pattern@.len(), |i: int| patternv(m.pattern@[i])),
        filter: Seq::new(m.filter@.len(), |i: int| exprv(m.filter@[i])),
    }
}

/// The shape of a reading clause.
pub open spec fn readingv(r: ReadingClause) -> SpecReadingClause {
    match r {
        ReadingClause::Match(m) => SpecReadingClause::Match(matchv(m)),
        ReadingClause::Unwind => SpecReadingClause::Unwind,
    }
}

/// The shape of a return clause.
pub open spec fn returnv(r: ReturnClause) -> SpecReturnClause {
    SpecReturnClause {
        star: r.star,
        projections: Seq::new(
            r.projections@.len(),
            |i: int| (exprv(r.projections@[i].0), r.projections@[i].1@),
        ),
    }
}

/// The shape of a union branch.
pub open spec fn unionv(u: Union) -> SpecUnion {
    SpecUnion {
        reading_clause: match u.reading_clause {
            Some(r) => Some(readingv(r)),
            None => None,
        },
        updating_clauses: u.updating_clauses@,
        return_clause: returnv(u.return_clause),
    }
}

/// The shape of a query.
pub open spec fn queryv(q: Query) -> SpecQuery {
    SpecQuery {
        unions: Seq::new(q.unions@.len(), |i: int| unionv(q.unions@[i])),
        sort_items: Seq::new(q.sort_items@.len(), |i: int| exprv(q.sort_items@[i])),
        ordering: q.ordering,
        skip: match q.skip {
            Some(e) => Some(exprv(e)),
            None => None,
        },
        limit: match q.limit {
            Some(e) => Some(exprv(e)),
            None => None,
        },
    }
}

impl SpecPattern {
    /// Path shape: one more node than relationships.
    pub open spec fn wf(self) -> bool {
        self.nodes.len() == self.rels.len() + 1
    }
}

impl SpecMatchClause {
    /// Every pattern of the clause is path-shaped.
    pub open spec fn wf(self) -> bool {
        forall|j: int| 0 <= j < self.pattern.len() ==> (#[trigger] self.pattern[j]).wf()
    }
}

impl SpecUnion {
    /// Every pattern of the reading clause, if any, is path-shaped.
    pub open spec fn wf(self) -> bool {
        match self.reading_clause {
            Some(SpecReadingClause::Match(m)) => m.wf(),
            _ => true,
        }
    }
}

impl SpecQuery {
    /// Every pattern in every match clause is path-shaped.
    pub open spec fn wf(self) -> bool {
        forall|i: int| 0 <= i < self.unions.len() ==> (#[trigger] self.unions[i]).wf()
    }
}

} // verus!
