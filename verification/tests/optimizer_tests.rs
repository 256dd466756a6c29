use deed::dql_ir::{FilterExpr, Operation, ProjectField, QueryPlan, Value};
use deed::dql_optimizer::{
    copy_plan, explore_variant, plan_signature, try_filter_pushdown, try_index_optimization, try_join_reorder,
    try_projection_pushdown,
};

fn prop(b: &str, p: &str) -> FilterExpr {
    FilterExpr::Property { binding: b.to_string(), property: p.to_string() }
}

fn eq(l: FilterExpr, r: FilterExpr) -> FilterExpr {
    FilterExpr::Equal(Box::new(l), Box::new(r))
}

fn scan(alias: &str, filter: Option<FilterExpr>) -> Operation {
    Operation::Scan { collection: "Users".to_string(), alias: alias.to_string(), filter }
}

fn project() -> Operation {
    Operation::Project { fields: vec![ProjectField { expression: prop("u", "name"), alias: "name".to_string() }] }
}

fn join(l: &str, r: &str) -> Operation {
    Operation::Join { left: l.to_string(), right: r.to_string(), condition: FilterExpr::Constant(Value::Bool(true)) }
}

#[test]
fn equality_scans_become_index_lookups() {
    let mut plan = QueryPlan::new(vec![
        scan("u", Some(eq(prop("u", "age"), FilterExpr::Constant(Value::Integer(25))))),
        scan("v", Some(eq(FilterExpr::Constant(Value::Integer(1)), prop("v", "age")))),
        project(),
    ]);
    assert_eq!(plan_signature(&plan), "S_S_P");
    try_index_optimization(&mut plan);
    match &plan.operations[0] {
        Operation::IndexLookup { collection, alias, index_name, key_values } => {
            assert_eq!(collection, "Users");
            assert_eq!(alias, "u");
            assert_eq!(index_name, "idx_age");
            assert_eq!(key_values, &vec![Value::Integer(25)]);
        }
        other => panic!("unexpected {:?}", other),
    }
    assert!(matches!(plan.operations[1], Operation::Scan { .. }));
    assert_eq!(plan_signature(&plan), "I_S_P");
}

#[test]
fn filters_merge_into_their_scan() {
    let cond = eq(prop("u", "age"), FilterExpr::Constant(Value::Integer(3)));
    let mut plan = QueryPlan::new(vec![
        scan("u", None),
        scan("w", None),
        Operation::Filter { binding: "u".to_string(), condition: cond },
        project(),
    ]);
    try_filter_pushdown(&mut plan);
    assert_eq!(plan_signature(&plan), "S_S_P");
    assert!(matches!(&plan.operations[0], Operation::Scan { filter: Some(FilterExpr::Equal(..)), .. }));
    assert!(matches!(&plan.operations[1], Operation::Scan { filter: None, .. }));

    let mut again = QueryPlan::new(vec![
        scan("u", Some(FilterExpr::Constant(Value::Bool(true)))),
        Operation::Filter { binding: "u".to_string(), condition: FilterExpr::Constant(Value::Bool(false)) },
    ]);
    try_filter_pushdown(&mut again);
    assert!(matches!(&again.operations[0], Operation::Scan { filter: Some(FilterExpr::And(..)), .. }));
    assert_eq!(again.operations.len(), 1);

    let mut orphan = QueryPlan::new(vec![
        scan("u", None),
        Operation::Filter { binding: "x".to_string(), condition: FilterExpr::Constant(Value::Null) },
    ]);
    try_filter_pushdown(&mut orphan);
    assert_eq!(plan_signature(&orphan), "S_F");
}

#[test]
fn projections_move_one_place_earlier() {
    let mut plan = QueryPlan::new(vec![scan("u", None), Operation::Limit { count: 2 }, project()]);
    try_projection_pushdown(&mut plan);
    assert_eq!(plan_signature(&plan), "S_P_L");
    let mut short = QueryPlan::new(vec![scan("u", None), project()]);
    try_projection_pushdown(&mut short);
    assert_eq!(plan_signature(&short), "S_P");
}

#[test]
fn consecutive_joins_swap() {
    let mut plan = QueryPlan::new(vec![scan("u", None), join("a", "b"), join("c", "d"), Operation::Skip { count: 1 }]);
    try_join_reorder(&mut plan);
    match &plan.operations[1] {
        Operation::Join { left, .. } => assert_eq!(left, "c"),
        other => panic!("unexpected {:?}", other),
    }
    assert_eq!(plan_signature(&plan), "S_J_J_K");
}

#[test]
fn variants_keep_the_plan_they_came_from() {
    let plan = QueryPlan::new(vec![
        scan("u", Some(eq(prop("u", "age"), FilterExpr::Constant(Value::Integer(25))))),
        project(),
    ]);
    let copy = copy_plan(&plan);
    assert_eq!(plan_signature(&copy), "S_P");
    for _ in 0..20 {
        let v = explore_variant(&plan);
        let s = plan_signature(&v);
        assert!(s == "S_P" || s == "I_P", "{}", s);
    }
    assert_eq!(plan_signature(&plan), "S_P");
    assert_eq!(plan_signature(&QueryPlan::new(vec![])), "");
}
