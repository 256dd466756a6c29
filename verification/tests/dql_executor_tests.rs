use deed::dql_executor::{
    compare_values, execute_mutation, filter_entities, is_mutation, limit_rows, query_signature, skip_rows,
    traverse_step, values_equal, ExecState, ValueOrder,
};
use deed::dql_ir::{FilterExpr, Operation, TraverseDirection, Value};
use deed::graph::{Entity, Graph};
use deed::types::{EntityId, Properties, PropertyValue};

fn person(graph: &mut Graph, age: i64) -> EntityId {
    let mut props = Properties::new();
    props.insert("age".to_string(), PropertyValue::Int(age));
    graph.add_entity("User".to_string(), props)
}

fn age_of(e: &Entity) -> i64 {
    e.get_property("age").unwrap().as_i64().unwrap()
}

fn ids(v: &[Entity]) -> Vec<EntityId> {
    v.iter().map(|e| e.id).collect()
}

#[test]
fn only_writing_operations_are_mutations() {
    assert!(is_mutation(&Operation::DeleteEntities { binding: "u".to_string() }));
    assert!(is_mutation(&Operation::InsertEntity {
        collection: "User".to_string(),
        properties: vec![],
    }));
    assert!(!is_mutation(&Operation::Limit { count: 3 }));
    assert!(!is_mutation(&Operation::Skip { count: 0 }));
}

#[test]
fn filter_keeps_accepted_entities_in_order() {
    let mut graph = Graph::new();
    let a = person(&mut graph, 20);
    let b = person(&mut graph, 40);
    let c = person(&mut graph, 60);
    let all = graph.scan_collection("User");
    let old = filter_entities(&all, |e: &Entity| age_of(e) > 30);
    assert_eq!(ids(&old), vec![b, c]);
    let none = filter_entities(&all, |_e: &Entity| false);
    assert!(none.is_empty());
    assert_eq!(ids(&filter_entities(&all, |_e: &Entity| true)), vec![a, b, c]);
}

#[test]
fn traversal_step_follows_the_direction_and_type() {
    let mut graph = Graph::new();
    let a = person(&mut graph, 20);
    let b = person(&mut graph, 30);
    let c = person(&mut graph, 40);
    graph.add_edge(a, b, "KNOWS".to_string(), Properties::new()).unwrap();
    graph.add_edge(a, c, "LIKES".to_string(), Properties::new()).unwrap();
    graph.add_edge(c, a, "KNOWS".to_string(), Properties::new()).unwrap();

    let sources = vec![graph.get_entity(a).unwrap()];
    let out = traverse_step(&graph, &sources, &TraverseDirection::Outgoing, None, |_e: &Entity| true);
    assert_eq!(ids(&out), vec![b, c]);

    let knows = traverse_step(&graph, &sources, &TraverseDirection::Outgoing, Some("KNOWS"), |_e: &Entity| true);
    assert_eq!(ids(&knows), vec![b]);

    let incoming = traverse_step(&graph, &sources, &TraverseDirection::Incoming, None, |_e: &Entity| true);
    assert_eq!(ids(&incoming), vec![c]);

    let both = traverse_step(&graph, &sources, &TraverseDirection::Both, None, |_e: &Entity| true);
    assert_eq!(ids(&both), vec![b, c, c]);

    let older = traverse_step(&graph, &sources, &TraverseDirection::Both, None, |e: &Entity| age_of(e) > 35);
    assert_eq!(ids(&older), vec![c, c]);
}

#[test]
fn traversal_step_visits_sources_in_turn() {
    let mut graph = Graph::new();
    let a = person(&mut graph, 20);
    let b = person(&mut graph, 30);
    let c = person(&mut graph, 40);
    graph.add_edge(b, c, "KNOWS".to_string(), Properties::new()).unwrap();
    graph.add_edge(a, b, "KNOWS".to_string(), Properties::new()).unwrap();
    let sources = vec![graph.get_entity(b).unwrap(), graph.get_entity(a).unwrap()];
    let out = traverse_step(&graph, &sources, &TraverseDirection::Outgoing, None, |_e: &Entity| true);
    assert_eq!(ids(&out), vec![c, b]);
    let empty: Vec<Entity> = Vec::new();
    assert!(traverse_step(&graph, &empty, &TraverseDirection::Both, None, |_e: &Entity| true).is_empty());
}

#[test]
fn limit_and_skip_cut_the_rows() {
    let mut rows = vec![1, 2, 3, 4, 5];
    limit_rows(&mut rows, 3);
    assert_eq!(rows, vec![1, 2, 3]);
    limit_rows(&mut rows, 10);
    assert_eq!(rows, vec![1, 2, 3]);
    assert_eq!(skip_rows(vec![1, 2, 3, 4], 1), vec![2, 3, 4]);
    assert_eq!(skip_rows(vec![1, 2, 3, 4], 4), Vec::<i32>::new());
    assert_eq!(skip_rows(vec![1, 2, 3, 4], 9), Vec::<i32>::new());
}

#[test]
fn query_signature_drops_all_whitespace() {
    assert_eq!(query_signature("FROM User  WHERE age = 25\n\tSELECT name"), "FROMUserWHEREage=25SELECTname");
    assert_eq!(query_signature(" \u{00a0}\u{2003} "), "");
    assert_eq!(query_signature("abc"), "abc");
}

fn insert_op(collection: &str) -> Operation {
    Operation::InsertEntity { collection: collection.to_string(), properties: vec![] }
}

#[test]
fn insert_adds_an_entity_and_answers_with_its_id() {
    let mut graph = Graph::new();
    let mut ctx = ExecState::new();
    let mut props = Properties::new();
    props.insert("name".to_string(), PropertyValue::String("Alice".to_string()));
    assert_eq!(execute_mutation(&mut graph, &insert_op("User"), props, &mut ctx), Ok(()));
    assert_eq!(ctx.rows_affected, 1);
    let id = ctx.last_inserted_id.unwrap();
    assert_eq!(ctx.result_rows.len(), 1);
    assert_eq!(ctx.result_rows[0].len(), 1);
    assert_eq!(ctx.result_rows[0][0].0, "id");
    assert!(matches!(ctx.result_rows[0][0].1, Value::EntityId(n) if n == id.as_u64()));
    let scanned = graph.scan_collection("User");
    assert_eq!(ids(&scanned), vec![id]);
    assert_eq!(scanned[0].get_property("name").unwrap().as_str().unwrap(), "Alice");
}

#[test]
fn update_and_delete_count_the_binding() {
    let mut graph = Graph::new();
    person(&mut graph, 1);
    person(&mut graph, 2);
    let mut ctx = ExecState::new();
    ctx.bind("u".to_string(), graph.scan_collection("User"));
    let update = Operation::UpdateEntities { binding: "u".to_string(), updates: vec![] };
    assert_eq!(execute_mutation(&mut graph, &update, Properties::new(), &mut ctx), Ok(()));
    assert_eq!(ctx.rows_affected, 2);
    let delete = Operation::DeleteEntities { binding: "u".to_string() };
    assert_eq!(execute_mutation(&mut graph, &delete, Properties::new(), &mut ctx), Ok(()));
    assert_eq!(ctx.deleted_count, 2);
    let missing = Operation::DeleteEntities { binding: "v".to_string() };
    assert_eq!(
        execute_mutation(&mut graph, &missing, Properties::new(), &mut ctx),
        Err("Binding not found: v".to_string())
    );
    assert_eq!(graph.stats().entity_count, 2);
}

#[test]
fn create_edge_links_the_first_entities_of_the_first_two_bindings() {
    let mut graph = Graph::new();
    let a = person(&mut graph, 1);
    let b = person(&mut graph, 2);
    let mut ctx = ExecState::new();
    ctx.bind("a".to_string(), vec![graph.get_entity(a).unwrap()]);
    ctx.bind("b".to_string(), vec![graph.get_entity(b).unwrap()]);
    let op = Operation::CreateEdge {
        source: FilterExpr::Constant(Value::Null),
        target: FilterExpr::Constant(Value::Null),
        edge_type: "KNOWS".to_string(),
        properties: vec![],
    };
    assert_eq!(execute_mutation(&mut graph, &op, Properties::new(), &mut ctx), Ok(()));
    assert_eq!(ctx.rows_affected, 1);
    assert_eq!(ctx.result_rows[0][0].0, "edge_id");
    let out = graph.get_outgoing_neighbors(a, Some("KNOWS"));
    assert_eq!(out.len(), 1);
    assert_eq!(out[0].0, b);

    // With one binding only, nothing is created.
    let mut lone = ExecState::new();
    lone.bind("a".to_string(), vec![graph.get_entity(a).unwrap()]);
    assert_eq!(execute_mutation(&mut graph, &op, Properties::new(), &mut lone), Ok(()));
    assert_eq!(lone.rows_affected, 0);
    assert!(lone.result_rows.is_empty());
}

#[test]
fn reading_operations_are_no_mutations() {
    let mut graph = Graph::new();
    let mut ctx = ExecState::new();
    assert_eq!(
        execute_mutation(&mut graph, &Operation::Limit { count: 1 }, Properties::new(), &mut ctx),
        Err("Not a mutation operation".to_string())
    );
}

#[test]
fn binding_again_replaces_in_place() {
    let mut graph = Graph::new();
    let a = person(&mut graph, 1);
    let mut ctx = ExecState::new();
    ctx.bind("x".to_string(), vec![]);
    ctx.bind("y".to_string(), vec![]);
    ctx.bind("x".to_string(), vec![graph.get_entity(a).unwrap()]);
    assert_eq!(ctx.bindings.len(), 2);
    assert_eq!(ctx.bindings[0].0, "x");
    assert_eq!(ctx.binding("x").unwrap().len(), 1);
    assert!(ctx.binding("z").is_none());
}

#[test]
fn values_compare_without_floats_and_leave_floats_aside() {
    let s = |t: &str| PropertyValue::String(t.to_string());
    assert!(matches!(compare_values(&PropertyValue::Int(1), &PropertyValue::Int(2)), ValueOrder::Less));
    assert!(matches!(compare_values(&PropertyValue::Int(2), &PropertyValue::Int(2)), ValueOrder::Equal));
    assert!(matches!(compare_values(&s("b"), &s("ab")), ValueOrder::Greater));
    assert!(matches!(compare_values(&s("é"), &s("z")), ValueOrder::Greater));
    assert!(matches!(compare_values(&PropertyValue::Int(1), &s("1")), ValueOrder::Unordered));
    assert!(matches!(compare_values(&PropertyValue::Int(1), &PropertyValue::Float(1.0f64.to_bits())), ValueOrder::Float));
    assert_eq!(values_equal(&PropertyValue::Null, &PropertyValue::Null), Some(true));
    assert_eq!(values_equal(&s("a"), &s("a")), Some(true));
    assert_eq!(values_equal(&PropertyValue::Bool(true), &PropertyValue::Int(1)), Some(false));
    assert_eq!(values_equal(&PropertyValue::Float(0), &PropertyValue::Float(0)), None);
}
