//! The physical assembler: a one-to-one structural lowering of the
//! logical tree into operators, children first; no cost model.

use vstd::prelude::*;
use crate::error::{Error, ErrorKind};
use crate::executor::{Executor, FilterExec, ProjectExec, TiDBNestedLoopExpand, TiDBScanExec, opv};
use crate::plan::{RelExpr, SpecRel, relov};

verus! {

/// Whether a plan lowers: every node but a join does.
pub open spec fn sp_implementable(r: SpecRel) -> bool
    decreases r,
{
    match r {
        SpecRel::Scan { .. } => true,
        SpecRel::Expand { child, .. } => sp_implementable(*child),
        SpecRel::Join(_, _) => false,
        SpecRel::Selection { child, .. } => sp_implementable(*child),
        SpecRel::Projection { child, .. } => sp_implementable(*child),
    }
}

/// Lowers a logical plan into its operator tree, children before
/// parents. Succeeds exactly when no join is present; the operator tree
/// implements the plan node for node.
pub fn default_implementation(rel_expr: &RelExpr) -> (r: Result<Executor, Error>)
    ensures
        match r {
            Ok(ex) => sp_implementable(relov(*rel_expr)) && opv(ex) == relov(*rel_expr),
            Err(e) => !sp_implementable(relov(*rel_expr)) && e.kind == ErrorKind::Internal,
        },
    decreases *rel_expr,
{
    match rel_expr {
        RelExpr::NodeScan(scan) => Ok(Executor::Scan(TiDBScanExec::new(scan))),
        RelExpr::Expand(expand) => {
            let child = match default_implementation(&expand.child) {
                Ok(c) => c,
                Err(e) => {
                    return Err(e);
                },
            };
            Ok(Executor::Expand(Box::new(TiDBNestedLoopExpand::new(child, expand))))
        },
        RelExpr::Projection(project) => {
            let child = match default_implementation(&project.child) {
                Ok(c) => c,
                Err(e) => {
                    return Err(e);
                },
            };
            Ok(Executor::Project(Box::new(ProjectExec::new(child, project))))
        },
        RelExpr::Selection(select) => {
            let child = match default_implementation(&select.child) {
                Ok(c) => c,
                Err(e) => {
                    return Err(e);
                },
            };
            Ok(Executor::Filter(Box::new(FilterExec::new(child, select))))
        },
        RelExpr::Join(_) => Err(
            Error {
                msg: String::from_str("unsupported construct"),
                kind: ErrorKind::Internal,
            },
        ),
    }
}

} // verus!
