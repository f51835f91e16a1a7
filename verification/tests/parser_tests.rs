use graphquery::ast::{Direction, Expr, ReadingClause};
use graphquery::error::ErrorKind;
use graphquery::parser::{parse_expression, Parser};
use graphquery::render::render_expr;

#[test]
fn test_parse() {
    let query = r#"
    MATCH (a:Label1)-[r:Type1]->(b:Label2)
    WHERE a = 1
    RETURN *, a, b;"#;
    let parser = Parser::new();
    let ast = parser.parse(query).unwrap();
    assert_eq!(ast.unions.len(), 1);
    let union = &ast.unions[0];
    match union.reading_clause.as_ref().unwrap() {
        ReadingClause::Match(m) => {
            assert_eq!(m.pattern.len(), 1);
            let p = &m.pattern[0];
            assert_eq!(p.nodes.len(), 2);
            assert_eq!(p.rels.len(), 1);
            assert_eq!(p.nodes[0].name, "a");
            assert_eq!(p.nodes[0].labels, vec!["Label1".to_string()]);
            assert_eq!(p.rels[0].name, "r");
            assert_eq!(p.rels[0].direction, Direction::Right);
            assert_eq!(p.rels[0].types, vec!["Type1".to_string()]);
            assert_eq!(p.nodes[1].name, "b");
            assert_eq!(m.filter.len(), 1);
        }
        _ => panic!("expected a match clause"),
    }
    assert!(union.return_clause.star);
    assert_eq!(union.return_clause.projections.len(), 2);
    assert_eq!(union.return_clause.projections[0].1, "a");
    assert_eq!(union.return_clause.projections[1].1, "b");
}

#[test]
fn test_parse_multiple_pattern() {
    let query = r#"
    MATCH (a:Label1)-[r:Type1]->(b:Label2), (c:Label1)<-[r1:Type1]-(d:Label2)
    WHERE a = 1
    RETURN *, a, b;"#;
    let parser = Parser::new();
    let ast = parser.parse(query).unwrap();
    let union = &ast.unions[0];
    match union.reading_clause.as_ref().unwrap() {
        ReadingClause::Match(m) => {
            assert_eq!(m.pattern.len(), 2);
            assert_eq!(m.pattern[0].rels[0].direction, Direction::Right);
            assert_eq!(m.pattern[1].rels[0].direction, Direction::Left);
            assert_eq!(m.pattern[1].nodes[0].name, "c");
            assert_eq!(m.pattern[1].rels[0].name, "r1");
        }
        _ => panic!("expected a match clause"),
    }
}

#[test]
fn test_parse_rejects_garbage() {
    let parser = Parser::new();
    let err = parser.parse("nonsense").unwrap_err();
    assert_eq!(err.kind, ErrorKind::Parse);
}

#[test]
fn test_parse_requires_return() {
    let parser = Parser::new();
    assert!(parser.parse("MATCH (a:Person)").is_err());
}

#[test]
fn test_parse_alias() {
    let parser = Parser::new();
    let ast = parser.parse("MATCH (a:Person) RETURN a.name AS n").unwrap();
    let rc = &ast.unions[0].return_clause;
    assert!(!rc.star);
    assert_eq!(rc.projections.len(), 1);
    assert_eq!(rc.projections[0].1, "n");
    match &rc.projections[0].0 {
        Expr::PropertyLookup(p) => {
            assert_eq!(p.prop_name, "name");
        }
        _ => panic!("expected a property lookup"),
    }
}

#[test]
fn test_parse_default_alias_is_rendering() {
    let parser = Parser::new();
    let ast = parser.parse("MATCH (a:Person) RETURN a.name").unwrap();
    let rc = &ast.unions[0].return_clause;
    assert_eq!(rc.projections[0].1, "a.name");
    assert_eq!(render_expr(&rc.projections[0].0), "a.name");
}

#[test]
fn test_parse_hex_number() {
    let (e, _) = parse_expression("0x1A", 0).unwrap();
    match e {
        Expr::NumberLit(n) => {
            assert!(!n.neg);
            assert_eq!(n.mant, 26);
            assert_eq!(n.scale, 0);
        }
        _ => panic!("expected a number literal"),
    }
}

#[test]
fn test_parse_decimal_normalizes() {
    let (e, _) = parse_expression("1.50", 0).unwrap();
    match e {
        Expr::NumberLit(n) => {
            assert_eq!(n.mant, 15);
            assert_eq!(n.scale, 1);
        }
        _ => panic!("expected a number literal"),
    }
}

#[test]
fn test_parse_string_literals() {
    let (e, _) = parse_expression("'hello'", 0).unwrap();
    match e {
        Expr::StringLit(s) => assert_eq!(s, "hello"),
        _ => panic!("expected a string literal"),
    }
    let (e2, _) = parse_expression("\"world\"", 0).unwrap();
    match e2 {
        Expr::StringLit(s) => assert_eq!(s, "world"),
        _ => panic!("expected a string literal"),
    }
}

#[test]
fn test_parse_boolean_any_case() {
    let (e, _) = parse_expression("TRUE", 0).unwrap();
    assert!(matches!(e, Expr::BooleanLit(true)));
    let (e2, _) = parse_expression("false", 0).unwrap();
    assert!(matches!(e2, Expr::BooleanLit(false)));
    let (e3, _) = parse_expression("truex", 0).unwrap();
    assert!(matches!(e3, Expr::Variable(_)));
}

#[test]
fn test_roundtrip_comparison() {
    let (e, consumed) = parse_expression("a=1", 0).unwrap();
    assert_eq!(consumed, 3);
    let text = render_expr(&e);
    assert_eq!(text, "a=1");
    let (e2, consumed2) = parse_expression(&text, 0).unwrap();
    assert_eq!(consumed2, text.chars().count());
    assert!(matches!(e2, Expr::EqualExpr(_)));
    assert_eq!(render_expr(&e2), text);
}

#[test]
fn test_roundtrip_each_kind() {
    let samples = [
        "a",
        "12",
        "1.5",
        "true",
        "false",
        "\"hi\"",
        "a.b",
        "-x",
        "a^b",
        "a*b",
        "a/b",
        "a+b",
        "a-b",
        "a=b",
        "a!=b",
        "a<b",
        "a<=b",
        "a>b",
        "a>=b",
        "NOT a",
        "a AND b",
        "a XOR b",
        "a OR b",
        "a.id=1 AND b.id=2",
        "x!=y",
        "a.b=1.5",
        "name=\"w\"",
    ];
    for text in samples.iter() {
        let (e, consumed) = parse_expression(text, 0)
            .unwrap_or_else(|| panic!("no parse for {}", text));
        assert_eq!(consumed, text.chars().count(), "leftover for {}", text);
        let rendered = render_expr(&e);
        assert_eq!(&rendered, text, "canonical text differs for {}", text);
        let (e2, consumed2) = parse_expression(&rendered, 0).unwrap();
        assert_eq!(consumed2, rendered.chars().count());
        assert_eq!(render_expr(&e2), rendered, "second parse differs for {}", text);
    }
}

#[test]
fn test_precedence_tower() {
    let (e, _) = parse_expression("a=1 AND b=2", 0).unwrap();
    match e {
        Expr::AndExpr(and) => {
            assert!(matches!(*and.lhs, Expr::EqualExpr(_)));
            assert!(matches!(*and.rhs, Expr::EqualExpr(_)));
        }
        _ => panic!("expected a conjunction"),
    }
}
