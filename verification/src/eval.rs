//! The scalar evaluator: a total function from a scalar expression and
//! one row to a value.

use vstd::prelude::*;
use crate::error::Error;
use crate::executor::{ExecutionContext, ctxv};
use crate::plan::{ScalarExpr, SpecScalar, scalarv};
use crate::types::{assoc_get, vview, Num, SpecValue, Value, str_eq};

verus! {

/// Equality as the evaluator sees it: exact on same-type integers,
/// decimals, strings and booleans; an integer and a decimal compare by
/// the number they denote; every other combination is unequal.
pub open spec fn spec_equal(a: SpecValue, b: SpecValue) -> bool {
    match (a, b) {
        (SpecValue::Int(l), SpecValue::Int(r)) => l == r,
        (SpecValue::Double(l), SpecValue::Double(r)) => l == r,
        (SpecValue::String(l), SpecValue::String(r)) => l == r,
        (SpecValue::Boolean(l), SpecValue::Boolean(r)) => l == r,
        (SpecValue::Int(l), SpecValue::Double(r)) => r.scale == 0 && r.signed() == l,
        (SpecValue::Double(l), SpecValue::Int(r)) => l.scale == 0 && l.signed() == r,
        _ => false,
    }
}

/// What evaluation returns, for every expression and row: a variable is
/// its binding or null; a lookup reads a property of an object, null
/// otherwise; equality and conjunction yield booleans; literals yield
/// themselves, numbers always as decimals.
pub open spec fn spec_eval(e: SpecScalar, ctx: Seq<(Seq<char>, SpecValue)>) -> SpecValue
    decreases e,
{
    match e {
        SpecScalar::Lookup(c, nm) => match spec_eval(*c, ctx) {
            SpecValue::Object(props) => match assoc_get(props, nm) {
                Some(v) => v,
                None => SpecValue::Null,
            },
            _ => SpecValue::Null,
        },
        SpecScalar::Variable(nm) => match assoc_get(ctx, nm) {
            Some(v) => v,
            None => SpecValue::Null,
        },
        SpecScalar::Equal(l, r) => SpecValue::Boolean(
            spec_equal(spec_eval(*l, ctx), spec_eval(*r, ctx)),
        ),
        SpecScalar::LogicAnd(l, r) => SpecValue::Boolean(
            match (spec_eval(*l, ctx), spec_eval(*r, ctx)) {
                (SpecValue::Boolean(a), SpecValue::Boolean(b)) => a && b,
                _ => false,
            },
        ),
        SpecScalar::Number(n) => SpecValue::Double(n),
        SpecScalar::Str(s) => SpecValue::String(s),
    }
}

/// Whether the decimal denotes exactly the integer `i`.
fn num_eq_int(n: &Num, i: i64) -> (r: bool)
    ensures
        r == (n.scale == 0 && n.signed() == i as int),
{
    if n.scale != 0 {
        false
    } else if n.mant == 0 {
        i == 0
    } else if n.neg {
        if i < 0 {
            if i == i64::MIN {
                n.mant == 9223372036854775808u64
            } else {
                n.mant == ((-i) as u64)
            }
        } else {
            false
        }
    } else {
        if i > 0 {
            n.mant == (i as u64)
        } else {
            false
        }
    }
}

/// The evaluator's equality on two values.
fn values_equal(a: &Value, b: &Value) -> (r: bool)
    ensures
        r == spec_equal(vview(*a), vview(*b)),
{
    match (a, b) {
        (Value::Int(l), Value::Int(r)) => l == r,
        (Value::Double(l), Value::Double(r)) => l == r,
        (Value::String(l), Value::String(r)) => str_eq(l.as_str(), r.as_str()),
        (Value::Boolean(l), Value::Boolean(r)) => *l == *r,
        (Value::Int(l), Value::Double(r)) => num_eq_int(r, *l),
        (Value::Double(l), Value::Int(r)) => num_eq_int(l, *r),
        _ => false,
    }
}

/// Evaluates a scalar expression against one row. Total: every supported
/// expression kind yields a value, never an error.
pub fn eval(expr: &ScalarExpr, ctx: &ExecutionContext) -> (r: Result<Value, Error>)
    ensures
        r matches Ok(v) && vview(v) == spec_eval(scalarv(*expr), ctxv(*ctx)),
    decreases *expr,
{
    match expr {
        ScalarExpr::PropertyLookup(child, name) => {
            let v = match eval(child, ctx) {
                Ok(v) => v,
                Err(e) => {
                    return Err(e);
                },
            };
            match v {
                Value::Object(obj) => {
                    match obj.get(name.as_str()) {
                        Some(p) => Ok(p.duplicate()),
                        None => Ok(Value::Null),
                    }
                },
                _ => Ok(Value::Null),
            }
        },
        ScalarExpr::Variable(name) => {
            match ctx.get(name.as_str()) {
                Some(v) => Ok(v.duplicate()),
                None => Ok(Value::Null),
            }
        },
        ScalarExpr::Equal(lhs, rhs) => {
            let l = match eval(lhs, ctx) {
                Ok(v) => v,
                Err(e) => {
                    return Err(e);
                },
            };
            let r = match eval(rhs, ctx) {
                Ok(v) => v,
                Err(e) => {
                    return Err(e);
                },
            };
            Ok(Value::Boolean(values_equal(&l, &r)))
        },
        ScalarExpr::LogicAnd(lhs, rhs) => {
            let l = match eval(lhs, ctx) {
                Ok(v) => v,
                Err(e) => {
                    return Err(e);
                },
            };
            let r = match eval(rhs, ctx) {
                Ok(v) => v,
                Err(e) => {
                    return Err(e);
                },
            };
            match (l, r) {
                (Value::Boolean(x), Value::Boolean(y)) => Ok(Value::Boolean(x && y)),
                _ => Ok(Value::Boolean(false)),
            }
        },
        ScalarExpr::NumberLiteral(n) => Ok(Value::Double(*n)),
        ScalarExpr::StringLiteral(s) => Ok(Value::String(s.clone())),
    }
}

} // verus!
