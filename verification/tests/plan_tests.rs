use deed::dql_ast::{
    AggregateFunction, CreateQuery, DeleteQuery, Direction, Expression, FromClause, GroupByClause, InsertQuery,
    Literal, OrderByClause, OrderByField, SelectClause, SelectField, SelectQuery, TraverseClause,
    TraversePattern, UpdateQuery, WhereClause,
};
use deed::dql_ir::{AggregateFunc, FilterExpr, Operation, QueryPlanBuilder, TraverseDirection, Value};

fn simple_select() -> SelectQuery {
    SelectQuery {
        from: FromClause { collection: "Users".to_string(), alias: None },
        traverse: None,
        where_clause: Some(WhereClause {
            condition: Expression::Equal(
                Box::new(Expression::property(None, "age")),
                Box::new(Expression::integer(25)),
            ),
        }),
        select: SelectClause {
            fields: vec![SelectField { expression: Expression::property(None, "name"), alias: None }],
        },
        group_by: None,
        having: None,
        order_by: None,
        limit: None,
        offset: None,
    }
}

fn hybrid_select() -> SelectQuery {
    SelectQuery {
        from: FromClause { collection: "Users".to_string(), alias: Some("u".to_string()) },
        traverse: Some(TraverseClause {
            patterns: vec![TraversePattern {
                direction: Direction::Outgoing,
                edge_type: Some("PURCHASED".to_string()),
                target_alias: Some("p".to_string()),
                min_hops: 1,
                max_hops: 1,
            }],
        }),
        where_clause: None,
        select: SelectClause {
            fields: vec![
                SelectField { expression: Expression::property(Some("u"), "name"), alias: None },
                SelectField {
                    expression: Expression::property(Some("p"), "name"),
                    alias: Some("product_name".to_string()),
                },
            ],
        },
        group_by: None,
        having: None,
        order_by: None,
        limit: Some(10),
        offset: None,
    }
}

#[test]
fn test_simple_select() {
    let query = simple_select();
    // Should represent: FROM Users WHERE age = 25 SELECT name
    assert_eq!(query.from.collection, "Users");
}

#[test]
fn dql_ast_test_hybrid_query() {
    let query = hybrid_select();
    // Represents: FROM Users u TRAVERSE -[:PURCHASED]-> p WHERE p.price > 100 SELECT u.name, p.name AS product_name LIMIT 10
    assert_eq!(query.from.collection, "Users");
    assert_eq!(query.traverse.as_ref().unwrap().patterns.len(), 1);
    assert_eq!(query.limit, Some(10));
}

#[test]
fn test_build_simple_select() {
    let query = simple_select();
    let mut builder = QueryPlanBuilder::new();
    let plan = builder.build_select(&query).unwrap();
    assert_eq!(plan.operations.len(), 2); // Scan + Project
}

#[test]
fn test_build_hybrid_query() {
    let query = hybrid_select();
    let mut builder = QueryPlanBuilder::new();
    let plan = builder.build_select(&query).unwrap();
    // Scan + Traverse + Project + Limit
    assert!(plan.operations.len() >= 3);
}

#[test]
fn select_plan_steps_in_order() {
    let query = simple_select();
    let mut builder = QueryPlanBuilder::new();
    let plan = builder.build_select(&query).unwrap();
    match &plan.operations[0] {
        Operation::Scan { collection, alias, filter } => {
            assert_eq!(collection, "Users");
            assert_eq!(alias, "Users");
            match filter {
                Some(FilterExpr::Equal(l, r)) => {
                    match l.as_ref() {
                        FilterExpr::Property { binding, property } => {
                            assert_eq!(binding, "Users");
                            assert_eq!(property, "age");
                        }
                        other => panic!("unexpected left operand {:?}", other),
                    }
                    assert!(matches!(r.as_ref(), FilterExpr::Constant(Value::Integer(25))));
                }
                other => panic!("unexpected filter {:?}", other),
            }
        }
        other => panic!("unexpected first operation {:?}", other),
    }
    match &plan.operations[1] {
        Operation::Project { fields } => {
            assert_eq!(fields.len(), 1);
            assert_eq!(fields[0].alias, "col_0");
        }
        other => panic!("unexpected second operation {:?}", other),
    }

    let hybrid = hybrid_select();
    let plan = builder.build_select(&hybrid).unwrap();
    assert_eq!(plan.operations.len(), 4);
    match &plan.operations[1] {
        Operation::Traverse { source_binding, direction, edge_type, target_alias, min_hops, max_hops, filter } => {
            assert_eq!(source_binding, "u");
            assert_eq!(*direction, TraverseDirection::Outgoing);
            assert_eq!(edge_type.as_deref(), Some("PURCHASED"));
            assert_eq!(target_alias, "p");
            assert_eq!((*min_hops, *max_hops), (1, 1));
            assert!(filter.is_none());
        }
        other => panic!("unexpected traversal {:?}", other),
    }
    match &plan.operations[2] {
        Operation::Project { fields } => {
            assert_eq!(fields[0].alias, "col_0");
            assert_eq!(fields[1].alias, "product_name");
        }
        other => panic!("unexpected projection {:?}", other),
    }
    assert!(matches!(plan.operations[3], Operation::Limit { count: 10 }));
}

#[test]
fn unnamed_traversal_targets_are_numbered() {
    let mut query = hybrid_select();
    let unnamed = TraversePattern {
        direction: Direction::Both,
        edge_type: None,
        target_alias: None,
        min_hops: 1,
        max_hops: 3,
    };
    query.traverse = Some(TraverseClause { patterns: vec![unnamed.clone(), unnamed] });
    query.limit = None;
    query.offset = Some(5);
    let mut builder = QueryPlanBuilder::new();
    let plan = builder.build_select(&query).unwrap();
    let targets: Vec<String> = plan
        .operations
        .iter()
        .filter_map(|op| match op {
            Operation::Traverse { target_alias, .. } => Some(target_alias.clone()),
            _ => None,
        })
        .collect();
    assert_eq!(targets, vec!["_binding_0".to_string(), "_binding_1".to_string()]);
    assert!(matches!(plan.operations.last(), Some(Operation::Skip { count: 5 })));
    // The builder keeps counting across queries.
    let plan = builder.build_select(&query).unwrap();
    match &plan.operations[1] {
        Operation::Traverse { target_alias, .. } => assert_eq!(target_alias, "_binding_2"),
        other => panic!("unexpected traversal {:?}", other),
    }
}

#[test]
fn grouping_names_aggregates_by_position() {
    let mut query = simple_select();
    query.select.fields.push(SelectField {
        expression: Expression::Aggregate(AggregateFunction::Count, Box::new(Expression::property(None, "id"))),
        alias: None,
    });
    query.group_by = Some(GroupByClause { fields: vec![Expression::property(None, "city")] });
    query.order_by = Some(OrderByClause {
        fields: vec![OrderByField { expression: Expression::property(None, "name"), ascending: false }],
    });
    let mut builder = QueryPlanBuilder::new();
    let plan = builder.build_select(&query).unwrap();
    assert_eq!(plan.operations.len(), 4); // Scan + GroupBy + Project + Sort
    match &plan.operations[1] {
        Operation::GroupBy { group_fields, aggregates } => {
            assert_eq!(group_fields.len(), 1);
            assert_eq!(aggregates.len(), 1);
            assert_eq!(aggregates[0].function, AggregateFunc::Count);
            assert_eq!(aggregates[0].alias, "agg_1");
        }
        other => panic!("unexpected grouping {:?}", other),
    }
    match &plan.operations[3] {
        Operation::Sort { fields } => assert!(!fields[0].ascending),
        other => panic!("unexpected sort {:?}", other),
    }
}

#[test]
fn insert_keeps_the_last_value_of_each_property() {
    let query = InsertQuery {
        collection: "Users".to_string(),
        properties: vec![
            ("name".to_string(), Literal::String("Alice".to_string())),
            ("age".to_string(), Literal::Integer(30)),
            ("name".to_string(), Literal::String("Bob".to_string())),
            ("score".to_string(), Literal::Float("2.5".to_string())),
        ],
    };
    let mut builder = QueryPlanBuilder::new();
    let plan = builder.build_insert(&query).unwrap();
    assert_eq!(plan.operations.len(), 1);
    match &plan.operations[0] {
        Operation::InsertEntity { collection, properties } => {
            assert_eq!(collection, "Users");
            assert_eq!(
                properties,
                &vec![
                    ("name".to_string(), Value::String("Bob".to_string())),
                    ("age".to_string(), Value::Integer(30)),
                    ("score".to_string(), Value::Float("2.5".to_string())),
                ]
            );
        }
        other => panic!("unexpected operation {:?}", other),
    }
}

#[test]
fn update_delete_and_create_plans() {
    let mut builder = QueryPlanBuilder::new();
    let update = UpdateQuery {
        collection: "Users".to_string(),
        set: vec![
            ("age".to_string(), Expression::integer(31)),
            ("age".to_string(), Expression::integer(32)),
        ],
        where_clause: Some(WhereClause { condition: Expression::bool(true) }),
    };
    let plan = builder.build_update(&update).unwrap();
    assert_eq!(plan.operations.len(), 2);
    assert!(matches!(&plan.operations[0], Operation::Scan { filter: Some(_), .. }));
    match &plan.operations[1] {
        Operation::UpdateEntities { binding, updates } => {
            assert_eq!(binding, "Users");
            assert_eq!(updates.len(), 1);
            assert!(matches!(updates[0].1, FilterExpr::Constant(Value::Integer(32))));
        }
        other => panic!("unexpected operation {:?}", other),
    }

    let delete = DeleteQuery { collection: "Users".to_string(), where_clause: None };
    let plan = builder.build_delete(&delete).unwrap();
    assert!(matches!(&plan.operations[0], Operation::Scan { filter: None, .. }));
    assert!(matches!(&plan.operations[1], Operation::DeleteEntities { binding } if binding == "Users"));

    let create = CreateQuery {
        edge_type: "FOLLOWS".to_string(),
        source: Expression::property(None, "id"),
        target: Expression::property(Some("b"), "id"),
        properties: vec![("since".to_string(), Literal::Integer(2020))],
    };
    let plan = builder.build_create(&create).unwrap();
    match &plan.operations[0] {
        Operation::CreateEdge { source, target, edge_type, properties } => {
            assert_eq!(edge_type, "FOLLOWS");
            assert!(matches!(source, FilterExpr::Property { binding, .. } if binding == "_default"));
            assert!(matches!(target, FilterExpr::Property { binding, .. } if binding == "b"));
            assert_eq!(properties, &vec![("since".to_string(), Value::Integer(2020))]);
        }
        other => panic!("unexpected operation {:?}", other),
    }
}

#[test]
fn conversions_of_literals_and_directions() {
    assert_eq!(Value::from_literal(&Literal::Null), Value::Null);
    assert_eq!(Value::from_literal(&Literal::Bool(true)), Value::Bool(true));
    assert_eq!(Value::from_literal(&Literal::Float("1.5".to_string())), Value::Float("1.5".to_string()));
    assert_eq!(TraverseDirection::from(Direction::Incoming), TraverseDirection::Incoming);
    assert_eq!(AggregateFunc::from(&AggregateFunction::Avg), AggregateFunc::Avg);
    let f = FilterExpr::from_ast(
        &Expression::Not(Box::new(Expression::property(Some("x"), "flag"))),
        "d",
    );
    match f {
        FilterExpr::Not(inner) => match *inner {
            FilterExpr::Property { binding, property } => {
                assert_eq!(binding, "x");
                assert_eq!(property, "flag");
            }
            other => panic!("unexpected operand {:?}", other),
        },
        other => panic!("unexpected filter {:?}", other),
    }
}
