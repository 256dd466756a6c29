use deed::distributed_p2p::{
    dispatch_message, is_pong_reply, Dispatch, MessageType, P2PConfig, P2PMessage, P2PNetwork,
};
use deed::distributed_query::{local_result, remote_result, SubQuery};
use deed::distributed_topology::NodeAddress;

#[test]
fn test_add_remove_peer() {
    let addr = NodeAddress::new("localhost".to_string(), 9000);
    let mut network = P2PNetwork::new(1, addr.clone(), P2PConfig::default());

    let peer_addr = NodeAddress::new("localhost".to_string(), 9001);
    network.add_peer(2, peer_addr.clone());

    assert_eq!(network.get_peers().len(), 1);

    network.remove_peer(2);
    assert_eq!(network.get_peers().len(), 0);
}

#[test]
fn test_p2p_stats() {
    let addr = NodeAddress::new("localhost".to_string(), 9000);
    let mut network = P2PNetwork::new(1, addr.clone(), P2PConfig::default());

    network.add_peer(2, NodeAddress::new("localhost".to_string(), 9001));
    network.add_peer(3, NodeAddress::new("localhost".to_string(), 9002));

    let stats = network.get_stats();
    assert_eq!(stats.total_peers, 2);
    assert_eq!(stats.local_address, "localhost:9000");
}

#[test]
fn connections_follow_peers() {
    let mut network = P2PNetwork::new(1, NodeAddress::new("h".to_string(), 1), P2PConfig::default());
    network.add_peer(2, NodeAddress::new("a".to_string(), 2));
    network.add_peer(2, NodeAddress::new("b".to_string(), 3));
    assert_eq!(network.get_peers(), vec![(2, NodeAddress::new("b".to_string(), 3))]);
    assert_eq!(network.peer_address(2).unwrap().port, 3);
    assert!(network.peer_address(9).is_none());
    network.connection_opened(2);
    assert_eq!(network.get_stats().active_connections, 1);
    network.remove_peer(2);
    assert_eq!(network.get_stats().active_connections, 0);
    network.connection_opened(5);
    network.connection_closed(5);
    assert_eq!(network.get_stats().active_connections, 0);

    let msg = P2PMessage::new(7, 1, 2, MessageType::Error { message: "x".to_string() });
    assert_eq!((msg.id, msg.sender_id, msg.receiver_id), (7, 1, 2));
    assert_eq!(msg.message_type, MessageType::Error { message: "x".to_string() });
    let cfg = P2PConfig::default();
    assert_eq!((cfg.listen_port, cfg.max_retries, cfg.buffer_size), (9000, 3, 65536));
}

#[test]
fn ping_is_answered_with_pong() {
    let ping = P2PMessage::new(7, 1, 2, MessageType::Ping);
    match dispatch_message(&ping, 8) {
        Dispatch::Reply(m) => {
            assert_eq!(m.id, 8);
            assert_eq!(m.sender_id, 2);
            assert_eq!(m.receiver_id, 1);
            assert_eq!(m.message_type, MessageType::Pong);
        }
        other => panic!("unexpected dispatch {:?}", other),
    }
    let pong = P2PMessage::new(9, 2, 1, MessageType::Pong);
    assert!(matches!(dispatch_message(&pong, 10), Dispatch::Done));
    let ack = P2PMessage::new(11, 2, 1, MessageType::Ack);
    assert!(matches!(dispatch_message(&ack, 12), Dispatch::ToHandler));
}

#[test]
fn only_pong_answers_a_ping() {
    assert!(is_pong_reply(&Some(P2PMessage::new(1, 2, 1, MessageType::Pong))));
    assert!(!is_pong_reply(&Some(P2PMessage::new(1, 2, 1, MessageType::Ack))));
    assert!(!is_pong_reply(&None));
}

fn sub_query() -> SubQuery {
    SubQuery { node_id: 4, shard_ids: vec![1, 3], query: "FROM users".to_string() }
}

#[test]
fn remote_answers_become_sub_results() {
    let sq = sub_query();
    let ok = remote_result(
        &sq,
        Ok(Some(P2PMessage::new(1, 4, 1, MessageType::QueryResponse { result: "ab".to_string() }))),
    )
    .unwrap();
    assert!(ok.success);
    assert_eq!(ok.rows_affected, 1);
    assert_eq!(ok.node_id, 4);
    assert_eq!(ok.shard_ids, vec![1, 3]);
    assert_eq!(ok.data, Some(vec![b'a', b'b']));

    let err = remote_result(
        &sq,
        Ok(Some(P2PMessage::new(1, 4, 1, MessageType::Error { message: "boom".to_string() }))),
    )
    .unwrap();
    assert!(!err.success);
    assert_eq!(err.error, Some("boom".to_string()));

    let silent = remote_result(&sq, Ok(None)).unwrap();
    assert_eq!(silent.error, Some("No response from node".to_string()));

    let unreachable = remote_result(&sq, Err("Connection refused".to_string())).unwrap();
    assert_eq!(unreachable.error, Some("Connection refused".to_string()));
    assert_eq!(unreachable.rows_affected, 0);

    let odd = remote_result(&sq, Ok(Some(P2PMessage::new(1, 4, 1, MessageType::Ack))));
    assert_eq!(odd.unwrap_err(), "Unexpected response type");
}

#[test]
fn local_answers_become_sub_results() {
    let sq = sub_query();
    let ok = local_result(1, &sq, Ok(5));
    assert!(ok.success);
    assert_eq!(ok.node_id, 1);
    assert_eq!(ok.rows_affected, 5);
    assert_eq!(ok.error, None);
    let bad = local_result(1, &sq, Err("no table".to_string()));
    assert!(!bad.success);
    assert_eq!(bad.rows_affected, 0);
    assert_eq!(bad.error, Some("no table".to_string()));
}
