use graphquery::catalog::{Catalog, CatalogError};
use graphquery::error::ErrorKind;
use graphquery::idgen::{IdGen, IdGenSync};
use graphquery::builder::Builder;
use graphquery::executor::Executor;
use graphquery::parser::Parser;
use graphquery::planner::{execute, run_query, Planner};
use graphquery::store::{Store, Table};
use graphquery::types::Value;

fn person_store() -> Store {
    let mut store = Store::new();
    store.add_table(
        "Person".to_string(),
        Table {
            columns: vec!["id".to_string(), "name".to_string()],
            rows: vec![
                vec![Value::Int(1), Value::String("ada".to_string())],
                vec![Value::Int(2), Value::String("alan".to_string())],
            ],
        },
    );
    store.add_table(
        "knows".to_string(),
        Table {
            columns: vec!["start".to_string(), "end".to_string()],
            rows: vec![vec![Value::Int(1), Value::Int(2)]],
        },
    );
    store
}

fn keys(ctx: &graphquery::executor::ExecutionContext) -> Vec<String> {
    ctx.values.iter().map(|kv| kv.0.clone()).collect()
}

fn prop_int(ctx: &graphquery::executor::ExecutionContext, var: &str, prop: &str) -> i64 {
    match ctx.get(var).unwrap() {
        Value::Object(o) => match o.get(prop).unwrap() {
            Value::Int(i) => *i,
            _ => panic!("property {} is not an integer", prop),
        },
        _ => panic!("{} is not bound to an object", var),
    }
}

#[test]
fn test_planner() {
    let planner = Planner::new();
    let parser = Parser::new();
    let ast = parser
        .parse(
            r#"
    MATCH (a:Person)-[r:knows]->(b:Person)
    RETURN *;
    "#,
        )
        .unwrap();
    let mut exec = planner.plan(&ast).unwrap();
    let store = person_store();
    exec.open(&store).unwrap();
    let res = exec.next().unwrap();
    assert!(res.is_some());
    exec.close().unwrap();
}

#[test]
fn test_scan() {
    let planner = Planner::new();
    let parser = Parser::new();
    let ast = parser
        .parse(
            r#"
    MATCH (a:Person)
    RETURN a;
    "#,
        )
        .unwrap();
    let mut exec = planner.plan(&ast).unwrap();
    let store = person_store();
    exec.open(&store).unwrap();
    let mut count = 0;
    while let Some(_res) = exec.next().unwrap() {
        count += 1;
    }
    assert_eq!(count, 2);
    exec.close().unwrap();
}

#[test]
fn test_selection() {
    let planner = Planner::new();
    let parser = Parser::new();
    let ast = parser
        .parse(
            r#"
    MATCH (a:Person)
    WHERE a.id = 1
    RETURN a;
    "#,
        )
        .unwrap();
    let mut exec = planner.plan(&ast).unwrap();
    let store = person_store();
    exec.open(&store).unwrap();
    let mut count = 0;
    while let Some(res) = exec.next().unwrap() {
        assert_eq!(prop_int(&res, "a", "id"), 1);
        count += 1;
    }
    assert_eq!(count, 1);
    exec.close().unwrap();
}

#[test]
fn test_builder() {
    let parser = Parser::new();
    let ast = parser
        .parse(
            r#"
    MATCH (a:Label1)-[r:Type1]->(b:Label1)<-[r1:Type1]-(c:Label2)
    RETURN a.a, b, c AS d;
    "#,
        )
        .unwrap();
    let mut builder = Builder::new();
    let plan = builder.build(&ast).unwrap();
    // Two paths end at `b`, so the two scan-rooted chains join.
    match plan {
        graphquery::plan::RelExpr::Projection(p) => match *p.child {
            graphquery::plan::RelExpr::Join(_) => {}
            _ => panic!("expected a join under the projection"),
        },
        _ => panic!("expected a projection at the root"),
    }
}

#[test]
fn test_run_query() {
    let store = person_store();
    let result = run_query(
        &store,
        r#"
    MATCH (n:Person)-[r:knows]->(n1:Person)
    RETURN n, r, n1
    "#,
    )
    .unwrap();
    assert_eq!(result.len(), 1);
    assert_eq!(prop_int(&result[0], "n", "id"), 1);
    assert_eq!(prop_int(&result[0], "n1", "id"), 2);
}

#[test]
fn test_scan_two_rows() {
    let store = person_store();
    let rows = run_query(&store, "MATCH (a:Person) RETURN a").unwrap();
    assert_eq!(rows.len(), 2);
    for row in rows.iter() {
        assert_eq!(keys(row), vec!["a".to_string()]);
        match row.get("a").unwrap() {
            Value::Object(o) => {
                assert!(o.get("id").is_some());
                assert!(o.get("name").is_some());
            }
            _ => panic!("a is not bound to an object"),
        }
    }
}

#[test]
fn test_filter_by_id_with_coercion() {
    let store = person_store();
    let rows = run_query(&store, "MATCH (a:Person) WHERE a.id = 1 RETURN a").unwrap();
    assert_eq!(rows.len(), 1);
    assert_eq!(prop_int(&rows[0], "a", "id"), 1);
}

#[test]
fn test_alias_renames_key() {
    let store = person_store();
    let rows = run_query(&store, "MATCH (a:Person) RETURN a.name AS n").unwrap();
    assert_eq!(rows.len(), 2);
    for row in rows.iter() {
        assert_eq!(keys(row), vec!["n".to_string()]);
    }
}

#[test]
fn test_return_star_keeps_existing_keys() {
    let store = person_store();
    let rows = run_query(&store, "MATCH (a:Person) RETURN *, a.name AS n").unwrap();
    assert_eq!(rows.len(), 2);
    for row in rows.iter() {
        assert_eq!(keys(row), vec!["a".to_string(), "n".to_string()]);
    }
}

#[test]
fn test_hop_binds_by_direction() {
    let store = person_store();
    let right = run_query(&store, "MATCH (a:Person)-[r:knows]->(b:Person) RETURN *").unwrap();
    assert_eq!(right.len(), 1);
    assert_eq!(prop_int(&right[0], "a", "id"), 1);
    assert_eq!(prop_int(&right[0], "b", "id"), 2);
    let left = run_query(&store, "MATCH (a:Person)<-[r:knows]-(b:Person) RETURN *").unwrap();
    assert_eq!(left.len(), 1);
    assert_eq!(prop_int(&left[0], "b", "id"), 1);
    assert_eq!(prop_int(&left[0], "a", "id"), 2);
}

#[test]
fn test_two_patterns_cartesian_join() {
    // Two disconnected patterns build one Cartesian join of two
    // scan-rooted subtrees; the join stage itself is not yet lowerable,
    // so execution reports it as unsupported.
    let parser = Parser::new();
    let ast = parser.parse("MATCH (a:Person), (b:Person) RETURN *").unwrap();
    let mut builder = Builder::new();
    let plan = builder.build(&ast).unwrap();
    match plan {
        graphquery::plan::RelExpr::Projection(p) => match *p.child {
            graphquery::plan::RelExpr::Join(j) => {
                assert!(matches!(*j.lhs, graphquery::plan::RelExpr::NodeScan(_)));
                assert!(matches!(*j.rhs, graphquery::plan::RelExpr::NodeScan(_)));
            }
            _ => panic!("expected a join under the projection"),
        },
        _ => panic!("expected a projection at the root"),
    }
    let store = person_store();
    let err = run_query(&store, "MATCH (a:Person), (b:Person) RETURN *").unwrap_err();
    assert_eq!(err.kind, ErrorKind::Internal);
}

#[test]
fn test_next_keeps_signalling_end() {
    let planner = Planner::new();
    let parser = Parser::new();
    let ast = parser.parse("MATCH (a:Person) RETURN a").unwrap();
    let mut exec = planner.plan(&ast).unwrap();
    let store = person_store();
    exec.open(&store).unwrap();
    while exec.next().unwrap().is_some() {}
    assert!(exec.next().unwrap().is_none());
    assert!(exec.next().unwrap().is_none());
    exec.close().unwrap();
}

#[test]
fn test_close_safe_after_failed_open() {
    let planner = Planner::new();
    let parser = Parser::new();
    let ast = parser.parse("MATCH (a:Nowhere) RETURN a").unwrap();
    let mut exec = planner.plan(&ast).unwrap();
    let store = person_store();
    let err = exec.open(&store).unwrap_err();
    assert_eq!(err.kind, ErrorKind::Mysql);
    exec.close().unwrap();
    assert!(exec.next().unwrap().is_none());
    exec.close().unwrap();
}

#[test]
fn test_missing_table_is_store_error() {
    let store = person_store();
    let err = run_query(&store, "MATCH (a:Nowhere) RETURN a").unwrap_err();
    assert_eq!(err.kind, ErrorKind::Mysql);
}

#[test]
fn test_unsupported_predicate_is_build_error() {
    let store = person_store();
    let err = run_query(&store, "MATCH (a:Person) WHERE a OR a RETURN a").unwrap_err();
    assert_eq!(err.kind, ErrorKind::Internal);
}

#[test]
fn test_label_table_map_resolves() {
    let mut store = Store::new();
    store.map_label("Person".to_string(), "people".to_string());
    store.add_table(
        "people".to_string(),
        Table {
            columns: vec!["id".to_string()],
            rows: vec![vec![Value::Int(9)]],
        },
    );
    let rows = run_query(&store, "MATCH (a:Person) RETURN a").unwrap();
    assert_eq!(rows.len(), 1);
    assert_eq!(prop_int(&rows[0], "a", "id"), 9);
}

#[test]
fn test_labels_needed_for_prefetch() {
    let parser = Parser::new();
    let ast = parser
        .parse("MATCH (a:Person)-[r:knows]->(b:Person) RETURN a")
        .unwrap();
    let mut builder = Builder::new();
    let plan = builder.build(&ast).unwrap();
    let labels = plan.labels_needed();
    assert_eq!(
        labels,
        vec!["Person".to_string(), "knows".to_string(), "Person".to_string()]
    );
}

#[test]
fn test_execute_drains_everything() {
    let parser = Parser::new();
    let planner = Planner::new();
    let ast = parser.parse("MATCH (a:Person) RETURN a").unwrap();
    let mut exec = planner.plan(&ast).unwrap();
    let store = person_store();
    let rows = execute(&mut exec, &store).unwrap();
    assert_eq!(rows.len(), 2);
}

#[test]
fn test_catalog_labels() {
    let mut cat = Catalog::new();
    let d = cat.create_label("Person".to_string()).unwrap();
    assert_eq!(d.id, 0);
    assert_eq!(d.name, "Person");
    let by_id = cat.resolve_label_by_id(0).unwrap();
    assert_eq!(by_id.name, "Person");
    let by_name = cat.resolve_label_by_name("Person").unwrap();
    assert_eq!(by_name.id, 0);
    assert_eq!(
        cat.resolve_label_by_id(7).unwrap_err(),
        CatalogError::ObjectNotExists
    );
    assert_eq!(
        cat.resolve_label_by_name("City").unwrap_err(),
        CatalogError::ObjectNotExists
    );
}

#[test]
fn test_idgen_counts_from_zero() {
    let mut g = IdGen::new();
    assert_eq!(g.next(), 0);
    assert_eq!(g.next(), 1);
    let mut s = IdGenSync::new();
    assert_eq!(s.next(), 0);
    assert_eq!(s.next(), 1);
}
