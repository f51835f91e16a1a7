//! The planner: query text or syntax tree to an operator tree, and the
//! drain loop that runs one.

use vstd::prelude::*;
use crate::ast::{Query, SpecQuery, queryv};
use crate::builder::{Builder, sp_build};
use crate::error::{Error, ErrorKind};
use crate::executor::{ctxsv, ctxv, opv, stream, sp_rows, ExecutionContext, Executor, lemma_ctxsv_push};
use crate::implement::{default_implementation, sp_implementable};
use crate::parser::{Parser, sp_parse};
use crate::plan::SpecRel;
use crate::store::{Store, SpecStore, storev};

verus! {

/// The plan of a query: built, and lowerable into operators.
pub open spec fn sp_plan(q: SpecQuery) -> Option<SpecRel> {
    match sp_build(q) {
        Some(re) => if sp_implementable(re) {
            Some(re)
        } else {
            None
        },
        None => None,
    }
}

/// What a whole query run yields against a store, or nothing where any
/// stage refuses.
pub open spec fn sp_run_query(text: Seq<char>, store: SpecStore) -> Option<
    Seq<Seq<(Seq<char>, crate::types::SpecValue)>>,
> {
    match sp_parse(text) {
        None => None,
        Some(q) => match sp_plan(q) {
            None => None,
            Some(re) => sp_rows(re, store),
        },
    }
}

/// Builds and lowers queries.
pub struct Planner {}

impl Planner {
    /// A planner.
    pub fn new() -> (r: Planner) {
        Planner {  }
    }

    /// Builds the logical plan for a query and lowers it into an
    /// operator tree.
    pub fn plan(&self, ast: &Query) -> (r: Result<Executor, Error>)
        requires
            queryv(*ast).wf(),
        ensures
            match r {
                Ok(ex) => sp_plan(queryv(*ast)) == Some(opv(ex)),
                Err(e) => sp_plan(queryv(*ast)) is None && e.kind == ErrorKind::Internal,
            },
    {
        let mut builder = Builder::new();
        let rel_expr = match builder.build(ast) {
            Ok(re) => re,
            Err(e) => {
                return Err(e);
            },
        };
        match default_implementation(&rel_expr) {
            Ok(ex) => Ok(ex),
            Err(e) => Err(e),
        }
    }
}

/// Opens an operator tree, drains it to the end, and closes it; the
/// rows come back in stream order. All or nothing: a failed open closes
/// the tree and surfaces the failure.
pub fn execute(exec: &mut Executor, store: &Store) -> (r: Result<Vec<ExecutionContext>, Error>)
    ensures
        match r {
            Ok(rows) => sp_rows(opv(*old(exec)), storev(*store)) == Some(ctxsv(rows@)),
            Err(e) => sp_rows(opv(*old(exec)), storev(*store)) is None && e.kind
                == ErrorKind::Mysql,
        },
{
    match exec.open(store) {
        Ok(_) => {},
        Err(e) => {
            let _ = exec.close();
            return Err(e);
        },
    }
    let ghost s0 = stream(*exec);
    let mut rows: Vec<ExecutionContext> = Vec::new();
    let ghost mut consumed: int = 0;
    let mut draining = true;
    proof {
        assert(s0.take(0) =~= Seq::<Seq<(Seq<char>, crate::types::SpecValue)>>::empty());
        assert(ctxsv(rows@) =~= Seq::<Seq<(Seq<char>, crate::types::SpecValue)>>::empty());
        assert(s0.skip(0) =~= s0);
    }
    while draining
        invariant
            0 <= consumed <= s0.len(),
            draining ==> stream(*exec) == s0.skip(consumed),
            !draining ==> consumed == s0.len(),
            ctxsv(rows@) == s0.take(consumed),
        decreases s0.len() - consumed + (if draining {
            1int
        } else {
            0int
        }),
    {
        let nxt = match exec.next() {
            Ok(o) => o,
            Err(e) => {
                let _ = exec.close();
                return Err(e);
            },
        };
        match nxt {
            None => {
                proof {
                    assert(s0.skip(consumed).len() == 0);
                }
                draining = false;
            },
            Some(ctx) => {
                proof {
                    assert(ctxv(ctx) == s0.skip(consumed)[0]);
                    assert(s0.skip(consumed)[0] == s0[consumed]);
                    lemma_ctxsv_push(rows@, ctx);
                    assert(s0.take(consumed + 1) =~= s0.take(consumed).push(s0[consumed]));
                    assert(s0.skip(consumed).drop_first() =~= s0.skip(consumed + 1));
                }
                rows.push(ctx);
                proof {
                    consumed = consumed + 1;
                }
            },
        }
    }
    let _ = exec.close();
    proof {
        assert(s0.take(consumed) =~= s0);
    }
    Ok(rows)
}

/// Runs a whole query against a store: parse, build, lower, execute.
/// Succeeds exactly when every stage does, with the stage's own error
/// kind otherwise.
pub fn run_query(store: &Store, text: &str) -> (r: Result<Vec<ExecutionContext>, Error>)
    ensures
        match r {
            Ok(rows) => sp_run_query(text@, storev(*store)) == Some(ctxsv(rows@)),
            Err(e) => sp_run_query(text@, storev(*store)) is None,
        },
{
    let parser = Parser::new();
    let ast = match parser.parse(text) {
        Ok(q) => q,
        Err(e) => {
            return Err(e);
        },
    };
    let planner = Planner::new();
    let mut exec = match planner.plan(&ast) {
        Ok(ex) => ex,
        Err(e) => {
            return Err(e);
        },
    };
    execute(&mut exec, store)
}

} // verus!
