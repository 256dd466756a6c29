use deed::replication::{NodeRole, ReplicationConfig, ReplicationEntry, ReplicationManager};

fn alice_props() -> Vec<u8> {
    // The properties travel serialized: here `name = "Alice"`.
    b"name=Alice".to_vec()
}

#[test]
fn test_create_master() {
    let master = ReplicationManager::new_master("master-1".to_string());
    assert_eq!(master.role(), NodeRole::Master);
    assert_eq!(master.current_seq(), 0);
}

#[test]
fn test_create_slave() {
    let slave = ReplicationManager::new_slave("slave-1".to_string(), "localhost:9000".to_string());
    assert_eq!(slave.role(), NodeRole::Slave);
}

#[test]
fn test_log_insert() {
    let mut master = ReplicationManager::new_master("master-1".to_string());

    let seq = master.log_insert(1, "User".to_string(), alice_props()).unwrap();
    assert_eq!(seq, 0);
    assert_eq!(master.log_size(), 1);
}

#[test]
fn test_log_multiple_operations() {
    let mut master = ReplicationManager::new_master("master-1".to_string());

    let seq1 = master.log_insert(1, "User".to_string(), alice_props()).unwrap();
    let seq2 = master.log_update(1, alice_props()).unwrap();
    let seq3 = master.log_delete(1).unwrap();

    assert_eq!(seq1, 0);
    assert_eq!(seq2, 1);
    assert_eq!(seq3, 2);
    assert_eq!(master.log_size(), 3);
}

#[test]
fn test_slave_cannot_log() {
    let mut slave = ReplicationManager::new_slave("slave-1".to_string(), "localhost:9000".to_string());

    let result = slave.log_insert(1, "User".to_string(), alice_props());
    assert!(result.is_err());
    assert!(result.unwrap_err().contains("Only master"));
}

#[test]
fn test_get_entries_since() {
    let mut master = ReplicationManager::new_master("master-1".to_string());

    master.log_insert(1, "User".to_string(), alice_props()).unwrap();
    master.log_insert(2, "User".to_string(), alice_props()).unwrap();
    master.log_insert(3, "User".to_string(), alice_props()).unwrap();

    let entries = master.get_entries_since(0);
    assert_eq!(entries.len(), 3);

    let entries = master.get_entries_since(1);
    assert_eq!(entries.len(), 2);
}

#[test]
fn test_register_slave() {
    let mut master = ReplicationManager::new_master("master-1".to_string());

    master.register_slave("slave-1".to_string()).unwrap();
    let slaves = master.get_slave_states();
    assert_eq!(slaves.len(), 1);
    assert_eq!(slaves[0].slave_id, "slave-1");
}

#[test]
fn test_update_slave_ack() {
    let mut master = ReplicationManager::new_master("master-1".to_string());

    master.register_slave("slave-1".to_string()).unwrap();
    master.update_slave_ack("slave-1", 5).unwrap();

    let slaves = master.get_slave_states();
    assert_eq!(slaves[0].last_ack_seq, 5);
}

#[test]
fn test_trim_log() {
    let mut master = ReplicationManager::new_master("master-1".to_string());

    for i in 0..10 {
        master.log_insert(i, "User".to_string(), alice_props()).unwrap();
    }

    assert_eq!(master.log_size(), 10);

    master.trim_log(5);
    assert_eq!(master.log_size(), 4); // Sequences 6, 7, 8, 9 remain
}

#[test]
fn test_replication_stats() {
    let mut master = ReplicationManager::new_master("master-1".to_string());

    master.register_slave("slave-1".to_string()).unwrap();
    master.register_slave("slave-2".to_string()).unwrap();

    let stats = master.stats();
    assert_eq!(stats.node_id, "master-1");
    assert_eq!(stats.role, NodeRole::Master);
    assert_eq!(stats.slave_count, 2);
}

#[test]
fn entries_since_respect_batch_size_and_order() {
    let config = ReplicationConfig { batch_size: 2, ..Default::default() };
    let mut master = ReplicationManager::new(config);
    for i in 0..5 {
        master.log_delete(i).unwrap();
    }
    let entries = master.get_entries_since(1);
    let seqs: Vec<u64> = entries.iter().map(|e| e.seq()).collect();
    assert_eq!(seqs, vec![1, 2]);
    match &entries[0] {
        ReplicationEntry::DeleteEntity { entity_id, .. } => assert_eq!(*entity_id, 1),
        _ => panic!("expected a delete"),
    }
}

#[test]
fn lag_min_and_max_over_slaves() {
    let mut master = ReplicationManager::new_master("m".to_string());
    for i in 0..4 {
        master.log_create_edge(i, 1, 2, "KNOWS".to_string(), vec![]).unwrap();
    }
    master.register_slave("a".to_string()).unwrap();
    master.register_slave("b".to_string()).unwrap();
    master.update_slave_ack("a", 1).unwrap();
    master.update_slave_ack("b", 3).unwrap();
    master.update_slave_ack("ghost", 3).unwrap();
    let stats = master.stats();
    assert_eq!(stats.current_seq, 4);
    assert_eq!(stats.min_slave_seq, 1);
    assert_eq!(stats.max_slave_lag_ms, 30);
    assert_eq!(stats.log_size, 4);
}

#[test]
fn role_errors() {
    let mut slave = ReplicationManager::new_slave("s".to_string(), "m:1".to_string());
    assert_eq!(slave.register_slave("x".to_string()).unwrap_err(), "Only master can register slaves");
    assert_eq!(slave.update_slave_ack("x", 1).unwrap_err(), "Only master can update slave ack");
    let entry = ReplicationEntry::DeleteEdge { seq: 7, edge_id: 1, timestamp: 0 };
    slave.apply_entry(entry).unwrap();
    assert_eq!(slave.get_replication_lag(), 0);
    let mut master = ReplicationManager::new_master("m".to_string());
    let entry = ReplicationEntry::DeleteEdge { seq: 7, edge_id: 1, timestamp: 0 };
    assert_eq!(master.apply_entry(entry).unwrap_err(), "Only slave can apply entries");
}
