use deed::distributed_topology::{ConnectionType, NodeAddress, NodeInfo, SmallWorldTopology, TopologyConfig};

#[test]
fn test_add_remove_node() {
    let mut topology = SmallWorldTopology::new(1, TopologyConfig::default());

    let node2 = NodeInfo::new(2, NodeAddress::new("localhost".to_string(), 8081), 100);
    topology.add_node(node2.clone());

    assert_eq!(topology.get_all_nodes().len(), 1);
    assert_eq!(topology.get_node(2).unwrap().id, 2);

    topology.remove_node(2);
    assert_eq!(topology.get_all_nodes().len(), 0);
}

#[test]
fn test_build_topology_single_node() {
    let mut topology = SmallWorldTopology::new(1, TopologyConfig::default());
    topology.build_topology();

    assert_eq!(topology.get_connections().len(), 0);
}

#[test]
fn test_build_topology_multiple_nodes() {
    let config = TopologyConfig {
        local_connections: 4,
        longrange_connections: 2,
        max_latency_ms: 100,
        health_check_interval_secs: 10,
    };

    let mut topology = SmallWorldTopology::new(1, config);

    // Add 10 nodes
    topology.add_node(NodeInfo::new(1, NodeAddress::new("localhost".to_string(), 8081), 100));
    for i in 2..=10 {
        topology.add_node(NodeInfo::new(i, NodeAddress::new("localhost".to_string(), 8080 + i as u16), 100));
    }

    topology.build_topology();

    let connections = topology.get_connections();

    // Should have local_connections + longrange_connections
    // (4 local + 2 long-range = 6 connections)
    assert!(connections.len() <= 6);
    assert!(connections.len() >= 4); // At least local connections

    // Verify we have both types
    let local_count = connections.iter().filter(|c| c.connection_type == ConnectionType::Local).count();
    let longrange_count = connections.iter().filter(|c| c.connection_type == ConnectionType::LongRange).count();

    assert!(local_count > 0);
    assert!(longrange_count > 0);
}

#[test]
fn test_find_route_direct() {
    let mut topology = SmallWorldTopology::new(1, TopologyConfig::default());

    topology.add_node(NodeInfo::new(1, NodeAddress::new("localhost".to_string(), 8081), 100));
    topology.add_node(NodeInfo::new(2, NodeAddress::new("localhost".to_string(), 8082), 100));

    topology.build_topology();

    // Should find direct route from 1 to 2
    let route = topology.find_route(2);
    assert!(route.is_some());
    let path = route.unwrap();
    assert_eq!(path, vec![1, 2]);
}

#[test]
fn test_update_latency() {
    let mut topology = SmallWorldTopology::new(1, TopologyConfig::default());

    topology.add_node(NodeInfo::new(1, NodeAddress::new("localhost".to_string(), 8081), 100));
    topology.add_node(NodeInfo::new(2, NodeAddress::new("localhost".to_string(), 8082), 100));

    topology.build_topology();
    topology.update_latency(2, 50);

    let connections = topology.get_connections();
    let conn_to_2 = connections.iter().find(|c| c.target_id == 2);
    assert!(conn_to_2.is_some());
    assert_eq!(conn_to_2.unwrap().latency_ms, 50);
}

#[test]
fn ring_neighbours_routes_and_unknown_nodes() {
    let config = TopologyConfig { local_connections: 2, longrange_connections: 0, max_latency_ms: 100, health_check_interval_secs: 10 };
    let mut topology = SmallWorldTopology::new(1, config);
    for i in 1..=6 {
        topology.add_node(NodeInfo::new(i, NodeAddress::new("h".to_string(), 9000), 10));
    }
    topology.build_topology();
    let connections = topology.get_connections();
    // One neighbour on each side of the ring, both local.
    assert_eq!(connections.len(), 2);
    assert!(connections.iter().all(|c| c.connection_type == ConnectionType::Local && c.latency_ms == 0));
    let neighbour = connections[0].target_id;
    assert_eq!(topology.find_route(neighbour), Some(vec![1, neighbour]));
    assert_eq!(topology.find_route(1), Some(vec![1]));
    let far = (2..=6).find(|t| connections.iter().all(|c| c.target_id != *t)).unwrap();
    assert_eq!(topology.find_route(far), None);
    assert_eq!(topology.find_route(77), None);
    // Latency of a node without a connection changes nothing.
    topology.update_latency(77, 5);
    assert_eq!(topology.get_connections().len(), 2);

    // A node that does not know itself connects to nothing.
    let mut stranger = SmallWorldTopology::new(42, TopologyConfig::default());
    stranger.add_node(NodeInfo::new(1, NodeAddress::new("h".to_string(), 1), 1));
    stranger.add_node(NodeInfo::new(2, NodeAddress::new("h".to_string(), 2), 1));
    stranger.build_topology();
    assert!(stranger.get_connections().is_empty());
    assert_eq!(stranger.local_id(), 42);
}
