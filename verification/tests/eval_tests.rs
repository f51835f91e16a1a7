use graphquery::ast::Expr;
use graphquery::error::{Error, ErrorKind};
use graphquery::eval::eval;
use graphquery::executor::ExecutionContext;
use graphquery::plan::ScalarExpr;
use graphquery::render::render_expr;
use graphquery::types::{Num, Object, Value};

#[test]
fn test_eval_int_widened_to_decimal() {
    let one = Num::norm(false, 1, 0);
    let one_point_zero = Num::norm(false, 10, 1);
    let e = ScalarExpr::Equal(
        Box::new(ScalarExpr::NumberLiteral(one)),
        Box::new(ScalarExpr::NumberLiteral(one_point_zero)),
    );
    let ctx = ExecutionContext::new();
    let v = eval(&e, &ctx).unwrap();
    assert!(matches!(v, Value::Boolean(true)));
}

#[test]
fn test_eval_unbound_lookup_is_null() {
    let e = ScalarExpr::PropertyLookup(
        Box::new(ScalarExpr::Variable("x".to_string())),
        "p".to_string(),
    );
    let ctx = ExecutionContext::new();
    let v = eval(&e, &ctx).unwrap();
    assert!(matches!(v, Value::Null));
}

#[test]
fn test_eval_variable_binding() {
    let mut ctx = ExecutionContext::new();
    ctx.set("x", Value::Int(7));
    let v = eval(&ScalarExpr::Variable("x".to_string()), &ctx).unwrap();
    assert!(matches!(v, Value::Int(7)));
}

#[test]
fn test_eval_property_lookup() {
    let mut obj = Object::new();
    obj.set("id", &Value::Int(3));
    let mut ctx = ExecutionContext::new();
    ctx.set("a", Value::Object(obj));
    let e = ScalarExpr::PropertyLookup(
        Box::new(ScalarExpr::Variable("a".to_string())),
        "id".to_string(),
    );
    let v = eval(&e, &ctx).unwrap();
    assert!(matches!(v, Value::Int(3)));
}

#[test]
fn test_eval_int_against_cell_and_literal() {
    let mut ctx = ExecutionContext::new();
    ctx.set("x", Value::Int(1));
    let e = ScalarExpr::Equal(
        Box::new(ScalarExpr::Variable("x".to_string())),
        Box::new(ScalarExpr::NumberLiteral(Num::norm(false, 1, 0))),
    );
    let v = eval(&e, &ctx).unwrap();
    assert!(matches!(v, Value::Boolean(true)));
}

#[test]
fn test_eval_string_equality() {
    let e = ScalarExpr::Equal(
        Box::new(ScalarExpr::StringLiteral("x".to_string())),
        Box::new(ScalarExpr::StringLiteral("x".to_string())),
    );
    let ctx = ExecutionContext::new();
    assert!(matches!(eval(&e, &ctx).unwrap(), Value::Boolean(true)));
}

#[test]
fn test_eval_mixed_types_unequal() {
    let e = ScalarExpr::Equal(
        Box::new(ScalarExpr::StringLiteral("1".to_string())),
        Box::new(ScalarExpr::NumberLiteral(Num::norm(false, 1, 0))),
    );
    let ctx = ExecutionContext::new();
    assert!(matches!(eval(&e, &ctx).unwrap(), Value::Boolean(false)));
}

#[test]
fn test_eval_null_never_equal() {
    let e = ScalarExpr::Equal(
        Box::new(ScalarExpr::Variable("missing".to_string())),
        Box::new(ScalarExpr::Variable("missing".to_string())),
    );
    let ctx = ExecutionContext::new();
    assert!(matches!(eval(&e, &ctx).unwrap(), Value::Boolean(false)));
}

#[test]
fn test_eval_conjunction() {
    let t = ScalarExpr::Equal(
        Box::new(ScalarExpr::NumberLiteral(Num::norm(false, 1, 0))),
        Box::new(ScalarExpr::NumberLiteral(Num::norm(false, 1, 0))),
    );
    let f = ScalarExpr::Equal(
        Box::new(ScalarExpr::NumberLiteral(Num::norm(false, 1, 0))),
        Box::new(ScalarExpr::NumberLiteral(Num::norm(false, 2, 0))),
    );
    let both = ScalarExpr::LogicAnd(Box::new(t.dup()), Box::new(t.dup()));
    let one_side = ScalarExpr::LogicAnd(Box::new(t), Box::new(f));
    let ctx = ExecutionContext::new();
    assert!(matches!(eval(&both, &ctx).unwrap(), Value::Boolean(true)));
    assert!(matches!(eval(&one_side, &ctx).unwrap(), Value::Boolean(false)));
}

#[test]
fn test_num_normalization() {
    let n = Num::norm(false, 1500, 2);
    assert_eq!(n.mant, 15);
    assert_eq!(n.scale, 0);
    let m = Num::norm(true, 0, 5);
    assert!(!m.neg);
    assert_eq!(m.mant, 0);
    assert_eq!(m.scale, 0);
}

#[test]
fn test_number_rendering() {
    let one_point_five = Expr::NumberLit(Num { neg: false, mant: 15, scale: 1 });
    assert_eq!(render_expr(&one_point_five), "1.5");
    let small = Expr::NumberLit(Num { neg: false, mant: 5, scale: 3 });
    assert_eq!(render_expr(&small), "0.005");
    let negative = Expr::NumberLit(Num { neg: true, mant: 25, scale: 1 });
    assert_eq!(render_expr(&negative), "-2.5");
    let whole = Expr::NumberLit(Num { neg: false, mant: 42, scale: 0 });
    assert_eq!(render_expr(&whole), "42");
}

#[test]
fn test_value_same_is_strict() {
    let a = Value::Int(1);
    let b = Value::Double(Num::norm(false, 1, 0));
    assert!(!a.same(&b));
    assert!(a.same(&Value::Int(1)));
    assert!(Value::Null.same(&Value::Null));
}

#[test]
fn test_object_set_replaces() {
    let mut obj = Object::new();
    obj.set("k", &Value::Int(1));
    obj.set("k", &Value::Int(2));
    assert_eq!(obj.props.len(), 1);
    assert!(obj.get("k").unwrap().same(&Value::Int(2)));
    assert!(obj.get("absent").is_none());
}

#[test]
fn test_error_describe() {
    let e = Error::new(ErrorKind::Parse, "bad".to_string());
    assert_eq!(e.describe(), "ParseError: bad");
}
