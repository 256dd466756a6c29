use deed::executor::Executor;
use deed::graph::Graph;
use deed::types::{EntityId, Properties, PropertyValue};
use std::sync::Arc;

#[test]
fn test_filter_execution() {
    let mut graph = Graph::new();

    // Add test data
    for i in 1..=5 {
        let mut props = Properties::new();
        props.insert("age".to_string(), PropertyValue::Int(20 + i));

        graph.add_entity("User".to_string(), props);
    }

    let executor = Executor::new(Arc::new(graph));

    let results = executor.execute_filter(
        "User",
        Box::new(|e: &deed::graph::Entity| {
            e.get_property("age").and_then(|v| v.as_i64()).map(|age| age > 23).unwrap_or(false)
        }),
    );

    assert_eq!(results.len(), 2); // ages 24 and 25
}

#[test]
fn filter_keeps_collection_order() {
    let mut graph = Graph::new();
    for i in 0..6 {
        let mut props = Properties::new();
        props.insert("n".to_string(), PropertyValue::Int(i));
        graph.add_entity("Item".to_string(), props);
    }
    let executor = Executor::new(Arc::new(graph));
    let even = executor.execute_filter("Item", |e: &deed::graph::Entity| {
        e.get_property("n").and_then(|v| v.as_i64()).map(|n| n % 2 == 0).unwrap_or(false)
    });
    let ns: Vec<i64> = even.iter().map(|e| e.get_property("n").unwrap().as_i64().unwrap()).collect();
    assert_eq!(ns, vec![0, 2, 4]);
    assert!(executor.execute_filter("Nothing", |_e: &deed::graph::Entity| true).is_empty());
}

fn chain() -> (Graph, Vec<EntityId>) {
    let mut graph = Graph::new();
    let ids: Vec<EntityId> = (0..4).map(|_| graph.add_entity("N".to_string(), Properties::new())).collect();
    graph.add_edge(ids[0], ids[1], "NEXT".to_string(), Properties::new());
    graph.add_edge(ids[1], ids[2], "NEXT".to_string(), Properties::new());
    graph.add_edge(ids[2], ids[3], "NEXT".to_string(), Properties::new());
    graph.add_edge(ids[0], ids[3], "SKIP".to_string(), Properties::new());
    (graph, ids)
}

#[test]
fn traversal_stops_at_depth() {
    let (graph, ids) = chain();
    let executor = Executor::new(Arc::new(graph));
    let one: Vec<EntityId> = executor.execute_traversal(ids[0], Some("NEXT"), 1).iter().map(|e| e.id).collect();
    assert_eq!(one, vec![ids[1]]);
    let two: Vec<EntityId> = executor.execute_traversal(ids[0], Some("NEXT"), 2).iter().map(|e| e.id).collect();
    assert_eq!(two, vec![ids[1], ids[2]]);
    assert!(executor.execute_traversal(ids[0], Some("NEXT"), 0).is_empty());
}

#[test]
fn traversal_is_depth_first_and_enters_once() {
    let (mut graph, ids) = chain();
    graph.add_edge(ids[3], ids[0], "NEXT".to_string(), Properties::new());
    let executor = Executor::new(Arc::new(graph));
    let all: Vec<EntityId> = executor.execute_traversal(ids[0], None, 10).iter().map(|e| e.id).collect();
    // The stack is popped from the end: the SKIP edge, added last, is followed first.
    assert_eq!(all, vec![ids[3], ids[1], ids[2]]);
}

#[test]
fn traversal_does_not_revisit_a_node_first_reached_by_a_longer_path() {
    let mut graph = Graph::new();
    let a = graph.add_entity("N".to_string(), Properties::new());
    let b = graph.add_entity("N".to_string(), Properties::new());
    let c = graph.add_entity("N".to_string(), Properties::new());
    let d = graph.add_entity("N".to_string(), Properties::new());
    graph.add_edge(a, b, "E".to_string(), Properties::new()).unwrap();
    graph.add_edge(a, c, "E".to_string(), Properties::new()).unwrap();
    graph.add_edge(c, b, "E".to_string(), Properties::new()).unwrap();
    graph.add_edge(b, d, "E".to_string(), Properties::new()).unwrap();
    let executor = Executor::new(Arc::new(graph));
    let found: Vec<EntityId> = executor.execute_traversal(a, None, 2).iter().map(|e| e.id).collect();
    // The walk enters c, then b at depth 2 from c, so b is not expanded and
    // d (two edges from a through b) is not listed.
    assert_eq!(found, vec![c, b]);
}
