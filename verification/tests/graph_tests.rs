use deed::graph::{restore_graph, Edge, Entity, Graph, PHEROMONE_INITIAL_BITS};
use deed::types::{EdgeId, EntityId, Properties, PropertyValue};

#[test]
fn test_entity_creation() {
    let mut graph = Graph::new();

    let mut props = Properties::new();
    props.insert("name".to_string(), PropertyValue::String("Alice".to_string()));
    props.insert("age".to_string(), PropertyValue::Int(28));

    let id = graph.add_entity("User".to_string(), props);

    let entity = graph.get_entity(id).unwrap();
    assert_eq!(entity.entity_type, "User");
    assert_eq!(entity.get_property("name").unwrap().as_str().unwrap(), "Alice");
    assert_eq!(entity.get_property("age").unwrap().as_i64().unwrap(), 28);
}

#[test]
fn test_edge_creation() {
    let mut graph = Graph::new();

    let alice = graph.add_entity("User".to_string(), Properties::new());
    let bob = graph.add_entity("User".to_string(), Properties::new());

    let edge_id = graph.add_edge(alice, bob, "FOLLOWS".to_string(), Properties::new()).unwrap();

    let edge = graph.get_edge(edge_id).unwrap();
    assert_eq!(edge.source, alice);
    assert_eq!(edge.target, bob);
    assert_eq!(edge.edge_type, "FOLLOWS");
}

#[test]
fn test_graph_traversal() {
    let mut graph = Graph::new();

    let alice = graph.add_entity("User".to_string(), Properties::new());
    let bob = graph.add_entity("User".to_string(), Properties::new());
    let carol = graph.add_entity("User".to_string(), Properties::new());

    graph.add_edge(alice, bob, "FOLLOWS".to_string(), Properties::new());
    graph.add_edge(alice, carol, "FOLLOWS".to_string(), Properties::new());

    let neighbors = graph.get_outgoing_neighbors(alice, Some("FOLLOWS"));
    assert_eq!(neighbors.len(), 2);
}

#[test]
fn ids_count_up_from_one() {
    let mut graph = Graph::new();
    let a = graph.add_entity("User".to_string(), Properties::new());
    let b = graph.create_entity("Post".to_string(), Properties::new());
    assert_eq!(a, EntityId::new(1));
    assert_eq!(b, EntityId::new(2));
    let e = graph.add_edge(a, b, "WROTE".to_string(), Properties::new()).unwrap();
    assert_eq!(e, EdgeId::new(1));
    let stats = graph.stats();
    assert_eq!(stats.entity_count, 2);
    assert_eq!(stats.edge_count, 1);
    assert_eq!(stats.collection_count, 2);
}

#[test]
fn edges_need_both_ends() {
    let mut graph = Graph::new();
    let a = graph.add_entity("User".to_string(), Properties::new());
    assert!(graph.add_edge(a, EntityId::new(99), "FOLLOWS".to_string(), Properties::new()).is_none());
    assert!(graph.add_edge(EntityId::new(99), a, "FOLLOWS".to_string(), Properties::new()).is_none());
    assert_eq!(graph.stats().edge_count, 0);
    assert!(graph.get_edge(EdgeId::new(1)).is_none());
}

#[test]
fn neighbors_by_type_and_direction() {
    let mut graph = Graph::new();
    let a = graph.add_entity("User".to_string(), Properties::new());
    let b = graph.add_entity("User".to_string(), Properties::new());
    let c = graph.add_entity("User".to_string(), Properties::new());
    let e1 = graph.add_edge(a, b, "FOLLOWS".to_string(), Properties::new()).unwrap();
    let e2 = graph.add_edge(a, c, "LIKES".to_string(), Properties::new()).unwrap();
    let e3 = graph.add_edge(c, b, "FOLLOWS".to_string(), Properties::new()).unwrap();

    assert_eq!(graph.get_outgoing_neighbors(a, Some("FOLLOWS")), vec![(b, e1)]);
    assert_eq!(graph.get_outgoing_neighbors(a, Some("LIKES")), vec![(c, e2)]);
    assert_eq!(graph.get_outgoing_neighbors(a, None), vec![(b, e1), (c, e2)]);
    assert_eq!(graph.get_incoming_neighbors(b, None), vec![(a, e1), (c, e3)]);
    assert_eq!(graph.get_incoming_neighbors(b, Some("LIKES")), vec![]);
    assert_eq!(graph.get_outgoing_neighbors(EntityId::new(42), None), vec![]);
}

#[test]
fn reads_are_counted_on_the_copy() {
    let mut graph = Graph::new();
    let a = graph.add_entity("User".to_string(), Properties::new());
    assert_eq!(graph.get_entity(a).unwrap().access_count, 1);
    assert_eq!(graph.get_entity(a).unwrap().access_count, 1);
    assert!(graph.get_entity(EntityId::new(7)).is_none());
}

#[test]
fn scan_reads_a_collection_in_order() {
    let mut graph = Graph::new();
    let mut ids = Vec::new();
    for i in 0..3 {
        let mut props = Properties::new();
        props.insert("n".to_string(), PropertyValue::Int(i));
        ids.push(graph.add_entity("User".to_string(), props));
    }
    graph.add_entity("Post".to_string(), Properties::new());
    let users = graph.scan_collection("User");
    assert_eq!(users.len(), 3);
    for (i, e) in users.iter().enumerate() {
        assert_eq!(e.id, ids[i]);
        assert_eq!(e.get_property("n").unwrap().as_i64(), Some(i as i64));
    }
    assert!(graph.scan_collection("Nobody").is_empty());
    assert_eq!(graph.get_all_entities().len(), 4);
}

#[test]
fn restore_keeps_ids_and_links() {
    let mut graph = Graph::new();
    let mut props = Properties::new();
    props.insert("name".to_string(), PropertyValue::String("Zed".to_string()));
    graph.insert_entity_with_id(Entity::new(EntityId::new(10), "User".to_string(), props));
    graph.insert_entity_with_id(Entity::new(EntityId::new(10), "User".to_string(), Properties::new()));
    graph.insert_entity_with_id(Entity::new(EntityId::new(11), "User".to_string(), Properties::new()));
    assert_eq!(graph.scan_collection("User").len(), 2);
    graph.insert_edge_with_id(Edge::new(
        EdgeId::new(5),
        EntityId::new(10),
        EntityId::new(11),
        "KNOWS".to_string(),
        Properties::new(),
    ));
    assert_eq!(graph.get_outgoing_neighbors(EntityId::new(10), None), vec![(EntityId::new(11), EdgeId::new(5))]);
    assert_eq!(graph.get_incoming_neighbors(EntityId::new(11), Some("KNOWS")), vec![(EntityId::new(10), EdgeId::new(5))]);
    let next = graph.add_entity("User".to_string(), Properties::new());
    assert_eq!(next, EntityId::new(12));
    // Entity 11 has a list of incoming links (made by the restored edge);
    // entity 10 has none, so it cannot be the target of `add_edge`.
    let e = graph.add_edge(EntityId::new(12), EntityId::new(11), "KNOWS".to_string(), Properties::new());
    assert_eq!(e, Some(EdgeId::new(6)));
    assert_eq!(graph.get_all_edges().len(), 2);
}

#[test]
fn new_edges_start_with_initial_pheromone() {
    let mut graph = Graph::new();
    let a = graph.add_entity("User".to_string(), Properties::new());
    let id = graph.add_edge(a, a, "SELF".to_string(), Properties::new()).unwrap();
    let mut edge = graph.get_edge(id).unwrap();
    assert_eq!(edge.pheromone_bits, PHEROMONE_INITIAL_BITS);
    assert_eq!(f32::from_bits(edge.pheromone_bits), 1.0f32);
    edge.traversal_count = 3;
    assert!(graph.replace_edge(edge));
    assert_eq!(graph.get_edge(id).unwrap().traversal_count, 3);
    let stray = Edge::new(EdgeId::new(77), a, a, "SELF".to_string(), Properties::new());
    assert!(!graph.replace_edge(stray));
}

#[test]
fn restored_graph_holds_what_was_saved() {
    let mut graph = Graph::new();
    let mut props = Properties::new();
    props.insert("name".to_string(), PropertyValue::String("Ann".to_string()));
    let a = graph.add_entity("User".to_string(), props);
    let b = graph.add_entity("User".to_string(), Properties::new());
    let e = graph.add_edge(a, b, "FOLLOWS".to_string(), Properties::new()).unwrap();

    let entities = graph.get_all_entities();
    let edges = graph.get_all_edges();
    let restored = restore_graph(&entities, &edges);

    assert_eq!(restored.stats().entity_count, 2);
    assert_eq!(restored.stats().edge_count, 1);
    assert_eq!(restored.get_entity(a).unwrap().get_property("name").unwrap().as_str(), Some("Ann"));
    assert_eq!(restored.get_outgoing_neighbors(a, Some("FOLLOWS")), vec![(b, e)]);
    assert_eq!(restored.scan_collection("User").len(), 2);
}
