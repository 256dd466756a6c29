use deed::distributed_2pc::{TwoPhaseCommitCoordinator, TwoPhaseCommitParticipant, TwoPhaseCommitState, Vote};
use deed::distributed_partition::{ConsistencyLevel, PartitionManager, PartitionState, QuorumManager};
use deed::distributed_recovery::{FailureRecoveryManager, RecoveryState};
use deed::distributed_shard::{ConsistentHash, ShardConfig, ShardManager};
use deed::distributed_topology::NodeAddress;
use std::sync::Arc;

// ---------------- two-phase commit ----------------

#[test]
fn distributed_2pc_test_begin_transaction() {
    let mut coordinator = TwoPhaseCommitCoordinator::new(1, 30);
    let txn_id = coordinator.begin_transaction(vec![2, 3, 4], vec![1, 2, 3]);

    let txn = coordinator.get_transaction(txn_id).unwrap();
    assert_eq!(txn.participants.len(), 3);
    assert_eq!(txn.state, TwoPhaseCommitState::Init);
}

#[test]
fn test_all_votes_yes() {
    let mut coordinator = TwoPhaseCommitCoordinator::new(1, 30);
    let txn_id = coordinator.begin_transaction(vec![2, 3], vec![1, 2, 3]);

    coordinator.send_prepare(txn_id).unwrap();

    // Both vote yes
    coordinator.handle_vote(txn_id, 2, Vote::Yes).unwrap();
    coordinator.handle_vote(txn_id, 3, Vote::Yes).unwrap();

    let txn = coordinator.get_transaction(txn_id).unwrap();
    assert_eq!(txn.state, TwoPhaseCommitState::Committing);
}

#[test]
fn test_one_vote_no() {
    let mut coordinator = TwoPhaseCommitCoordinator::new(1, 30);
    let txn_id = coordinator.begin_transaction(vec![2, 3], vec![1, 2, 3]);

    coordinator.send_prepare(txn_id).unwrap();

    // One yes, one no
    coordinator.handle_vote(txn_id, 2, Vote::Yes).unwrap();
    coordinator.handle_vote(txn_id, 3, Vote::No).unwrap();

    let txn = coordinator.get_transaction(txn_id).unwrap();
    assert_eq!(txn.state, TwoPhaseCommitState::Aborting);
}

#[test]
fn test_participant_prepare() {
    let mut participant = TwoPhaseCommitParticipant::new(2);
    let vote = participant.handle_prepare(100, vec![1, 2, 3]);

    assert_eq!(vote, Vote::Yes);
}

#[test]
fn test_participant_commit() {
    let mut participant = TwoPhaseCommitParticipant::new(2);
    participant.handle_prepare(100, vec![1, 2, 3]);

    let success = participant.handle_commit(100);
    assert!(success);
}

#[test]
fn distributed_2pc_test_stats() {
    let mut coordinator = TwoPhaseCommitCoordinator::new(1, 30);

    coordinator.begin_transaction(vec![2, 3], vec![1, 2, 3]);
    coordinator.begin_transaction(vec![2, 3], vec![4, 5, 6]);

    let stats = coordinator.get_statistics();
    assert_eq!(stats.total_transactions, 2);
    assert_eq!(stats.in_progress_transactions, 2);
}

#[test]
fn two_phase_commit_runs_to_committed_after_all_acks() {
    let mut c = TwoPhaseCommitCoordinator::new(1, 30);
    let t = c.begin_transaction(vec![2, 3], vec![9]);
    assert_eq!(t, 1);
    c.send_prepare(t).unwrap();
    assert_eq!(c.get_transaction(t).unwrap().state, TwoPhaseCommitState::Preparing);
    c.handle_vote(t, 2, Vote::Yes).unwrap();
    assert_eq!(c.get_transaction(t).unwrap().state, TwoPhaseCommitState::Preparing);
    c.handle_vote(t, 3, Vote::Yes).unwrap();
    c.handle_ack(t, 2, true).unwrap();
    assert_eq!(c.get_transaction(t).unwrap().state, TwoPhaseCommitState::Committing);
    c.handle_ack(t, 3, true).unwrap();
    assert_eq!(c.get_transaction(t).unwrap().state, TwoPhaseCommitState::Committed);
    let stats = c.get_statistics();
    assert_eq!(stats.committed_transactions, 1);
    assert_eq!(stats.in_progress_transactions, 0);
}

#[test]
fn a_no_vote_ends_aborted_whatever_the_acks_say() {
    let mut c = TwoPhaseCommitCoordinator::new(1, 30);
    let t = c.begin_transaction(vec![2, 3], vec![1]);
    c.send_prepare(t).unwrap();
    c.handle_vote(t, 2, Vote::Yes).unwrap();
    c.handle_vote(t, 3, Vote::No).unwrap();
    assert_eq!(c.get_transaction(t).unwrap().state, TwoPhaseCommitState::Aborting);
    c.handle_ack(t, 2, true).unwrap();
    assert_eq!(c.handle_ack(t, 3, true), Ok(()));
    assert_eq!(c.get_transaction(t).unwrap().state, TwoPhaseCommitState::Aborted);
}

#[test]
fn unanimous_yes_commits_even_after_a_failed_ack() {
    let mut c = TwoPhaseCommitCoordinator::new(1, 30);
    let t = c.begin_transaction(vec![2], vec![1]);
    c.handle_vote(t, 2, Vote::Yes).unwrap();
    c.handle_ack(t, 2, false).unwrap();
    assert_eq!(c.get_transaction(t).unwrap().state, TwoPhaseCommitState::Committed);
}

#[test]
fn votes_on_unknown_transactions_are_refused() {
    let mut c = TwoPhaseCommitCoordinator::new(1, 30);
    assert!(c.handle_vote(77, 2, Vote::Yes).is_err());
    assert!(c.send_prepare(77).is_err());
    assert!(c.get_transaction(77).is_none());
}

#[test]
fn participant_commit_without_prepare_fails() {
    let mut p = TwoPhaseCommitParticipant::new(5);
    assert!(!p.handle_commit(1));
    p.handle_prepare(1, vec![]);
    assert!(p.handle_abort(1));
}

// ---------------- partitions and quorum ----------------

#[test]
fn test_partition_manager_creation() {
    let manager = PartitionManager::new(1, 5, 3, 10);
    assert_eq!(manager.get_state(), PartitionState::Healthy);
}

#[test]
fn test_add_nodes() {
    let mut manager = PartitionManager::new(1, 5, 3, 10);
    manager.add_node(2);
    manager.add_node(3);
    manager.add_node(4);
    manager.add_node(5);

    let partition = manager.get_our_partition();
    assert_eq!(partition.len(), 5); // Including self
}

#[test]
fn test_quorum_with_majority() {
    let mut manager = PartitionManager::new(1, 5, 3, 10);
    manager.add_node(2);
    manager.add_node(3);
    manager.add_node(4);
    manager.add_node(5);

    // Mark 2 nodes as failed
    manager.record_failure(4);
    manager.record_failure(4);
    manager.record_failure(4);
    manager.record_failure(5);
    manager.record_failure(5);
    manager.record_failure(5);

    manager.check_partition();

    // Should still have quorum (3 out of 5)
    assert!(manager.has_quorum());
    assert!(manager.can_write());
}

#[test]
fn test_partition_without_quorum() {
    let mut manager = PartitionManager::new(1, 5, 3, 10);
    manager.add_node(2);
    manager.add_node(3);
    manager.add_node(4);
    manager.add_node(5);

    // Mark 3 nodes as failed (minority partition)
    for _ in 0..3 {
        manager.record_failure(3);
        manager.record_failure(4);
        manager.record_failure(5);
    }

    manager.check_partition();

    // Should not have quorum (2 out of 5)
    assert!(!manager.has_quorum());
    assert!(!manager.can_write());
}

#[test]
fn test_consistency_level_required_nodes() {
    assert_eq!(ConsistencyLevel::Quorum.required_nodes(5, 3), 2);
    assert_eq!(ConsistencyLevel::All.required_nodes(5, 3), 3);
    assert_eq!(ConsistencyLevel::One.required_nodes(5, 3), 1);
    assert_eq!(ConsistencyLevel::Local.required_nodes(5, 3), 1);
}

#[test]
fn test_quorum_manager() {
    let mut partition_manager = PartitionManager::new(1, 5, 3, 10);
    partition_manager.add_node(2);
    partition_manager.add_node(3);
    partition_manager.add_node(4);
    partition_manager.add_node(5);
    let partition_manager = Arc::new(partition_manager);

    let quorum_manager = QuorumManager::new(1, 3, partition_manager);

    assert!(quorum_manager.can_read().is_ok());
    assert!(quorum_manager.can_write().is_ok());
}

#[test]
fn distributed_partition_test_stats() {
    let mut manager = PartitionManager::new(1, 5, 3, 10);
    manager.add_node(2);
    manager.add_node(3);

    let stats = manager.get_statistics();
    assert_eq!(stats.total_nodes, 5);
    assert_eq!(stats.reachable_nodes, 3);
    assert!(stats.has_quorum);
}

#[test]
fn heartbeat_brings_a_node_back() {
    let mut m = PartitionManager::new(1, 3, 3, 10);
    m.add_node(2);
    m.add_node(3);
    for _ in 0..3 {
        m.record_failure(2);
        m.record_failure(3);
    }
    m.check_partition();
    assert_eq!(m.get_state(), PartitionState::Partitioned);
    assert!(!m.can_write());
    let mut unreachable = m.get_unreachable_nodes();
    unreachable.sort();
    assert_eq!(unreachable, vec![2, 3]);
    m.record_heartbeat(2);
    m.check_partition();
    assert!(m.has_quorum());
    assert!(m.can_write());
}

// ---------------- consistent hashing and shards ----------------

#[test]
fn test_consistent_hash_add_node() {
    let config = ShardConfig::default();
    let mut hash = ConsistentHash::new(config);

    hash.add_node(1);
    hash.add_node(2);
    hash.add_node(3);

    let stats = hash.get_statistics();
    assert_eq!(stats.total_nodes, 3);
    assert_eq!(stats.total_vnodes, 3 * 150); // 3 nodes * 150 vnodes each
}

#[test]
fn test_consistent_hash_get_node() {
    let config = ShardConfig::default();
    let mut hash = ConsistentHash::new(config);

    hash.add_node(1);
    hash.add_node(2);
    hash.add_node(3);

    let node = hash.get_node("test_key");
    assert!(node.is_some());
    assert!(node.unwrap() >= 1 && node.unwrap() <= 3);
}

#[test]
fn test_consistent_hash_replicas() {
    let config = ShardConfig {
        replication_factor: 3,
        ..Default::default()
    };
    let mut hash = ConsistentHash::new(config);

    hash.add_node(1);
    hash.add_node(2);
    hash.add_node(3);
    hash.add_node(4);

    let replicas = hash.get_replica_nodes("test_key");
    assert_eq!(replicas.len(), 3);

    // All replicas should be different nodes
    let unique: std::collections::HashSet<_> = replicas.iter().collect();
    assert_eq!(unique.len(), 3);
}

#[test]
fn test_consistent_hash_remove_node() {
    let config = ShardConfig::default();
    let mut hash = ConsistentHash::new(config);

    hash.add_node(1);
    hash.add_node(2);
    hash.add_node(3);

    hash.remove_node(2);

    let stats = hash.get_statistics();
    assert_eq!(stats.total_nodes, 2);
}

#[test]
fn test_shard_manager_add_node() {
    let config = ShardConfig {
        total_shards: 16,
        replication_factor: 3,
        ..Default::default()
    };
    let mut manager = ShardManager::new(config);

    manager.add_node(1);
    manager.add_node(2);
    manager.add_node(3);

    let stats = manager.get_statistics();
    assert_eq!(stats.total_shards, 16);
    assert_eq!(stats.total_nodes, 3);
}

#[test]
fn test_shard_manager_get_shard_for_key() {
    let config = ShardConfig {
        total_shards: 16,
        ..Default::default()
    };
    let mut manager = ShardManager::new(config);

    manager.add_node(1);
    manager.add_node(2);

    let shard_id = manager.get_shard_for_key("test_key");
    assert!(shard_id.is_some());
    assert!(shard_id.unwrap() < 16);
}

#[test]
fn test_shard_manager_get_node_for_key() {
    let config = ShardConfig::default();
    let mut manager = ShardManager::new(config);

    manager.add_node(1);
    manager.add_node(2);
    manager.add_node(3);

    let node = manager.get_node_for_key("test_key");
    assert!(node.is_some());
}

#[test]
fn test_shard_manager_rebalancing() {
    let config = ShardConfig {
        total_shards: 16,
        ..Default::default()
    };
    let mut manager = ShardManager::new(config);

    manager.add_node(1);
    manager.add_node(2);
    manager.add_node(3);

    // Add a new node and check rebalancing operations
    manager.add_node(4);

    let operations = manager.calculate_rebalancing(4);
    // Should have some operations to move shards to the new node
    assert!(operations.len() > 0);
}

#[test]
fn empty_ring_has_no_owner() {
    let hash = ConsistentHash::new(ShardConfig::default());
    assert!(hash.get_node("k").is_none());
    assert!(hash.get_replica_nodes("k").is_empty());
    let stats = hash.get_statistics();
    assert_eq!(stats.total_nodes, 0);
    assert_eq!(stats.vnodes_per_node, 0);
}

#[test]
fn first_replica_is_the_owner_and_replicas_are_capped() {
    let mut hash = ConsistentHash::new(ShardConfig { replication_factor: 2, ..Default::default() });
    hash.add_node(10);
    hash.add_node(20);
    hash.add_node(30);
    for key in ["a", "b", "user:42", "shard_7"] {
        let owner = hash.get_node(key).unwrap();
        let replicas = hash.get_replica_nodes(key);
        assert_eq!(replicas.len(), 2);
        assert_eq!(replicas[0], owner);
        assert_ne!(replicas[0], replicas[1]);
    }
    let removed = hash.remove_node(20);
    assert_eq!(removed.len(), 150);
    assert!(hash.remove_node(20).is_empty());
}

#[test]
fn shard_assignments_follow_the_ring() {
    let mut manager = ShardManager::new(ShardConfig { total_shards: 8, replication_factor: 2, ..Default::default() });
    manager.add_node(1);
    manager.add_node(2);
    let shards = manager.get_all_shards();
    assert_eq!(shards.len(), 8);
    for s in &shards {
        assert_eq!(manager.get_node_for_shard(s.shard_id), Some(s.primary_node));
        assert_eq!(manager.get_replicas_for_shard(s.shard_id), s.replica_nodes);
        assert_eq!(s.replica_nodes.len(), 1);
        assert_ne!(s.replica_nodes[0], s.primary_node);
    }
    assert_eq!(shards.iter().filter(|s| s.shard_id == 7).count(), 1);
    let last = shards.iter().find(|s| s.shard_id == 7).unwrap();
    assert_eq!(last.key_range_end, u64::MAX);
    assert_eq!(manager.get_shards_for_node(1).len(), 8);
    let moved = manager.remove_node(2);
    assert!(moved.is_empty());
    assert_eq!(manager.get_all_shards().len(), 8);
}

// ---------------- recovery ----------------

fn create_test_manager() -> FailureRecoveryManager {
    let shard_manager = Arc::new(ShardManager::new(ShardConfig::default()));
    let partition_manager = Arc::new(PartitionManager::new(1, 5, 3, 10));

    FailureRecoveryManager::new(1, shard_manager, partition_manager, 2, 10)
}

#[test]
fn test_recovery_manager_creation() {
    let manager = create_test_manager();
    assert_eq!(manager.get_state(), RecoveryState::Monitoring);
}

#[test]
fn distributed_recovery_test_stats() {
    let manager = create_test_manager();
    let stats = manager.get_statistics();

    assert_eq!(stats.state, RecoveryState::Monitoring);
    assert_eq!(stats.failed_nodes, 0);
    assert_eq!(stats.pending_actions, 0);
}

#[test]
fn test_mark_recovered() {
    // Node 2 becomes unreachable, is detected as failed, then recovers.
    let mut partitions = PartitionManager::new(1, 5, 3, 10);
    partitions.add_node(2);
    for _ in 0..3 {
        partitions.record_failure(2);
    }
    let shard_manager = Arc::new(ShardManager::new(ShardConfig::default()));
    let mut manager = FailureRecoveryManager::new(1, shard_manager, Arc::new(partitions), 2, 10);

    manager.check_for_failures();
    assert_eq!(manager.get_statistics().failed_nodes, 1);

    manager.mark_recovered(2);
    assert_eq!(manager.get_statistics().failed_nodes, 0);
}

#[test]
fn recovery_plans_promotion_for_a_failed_primary() {
    let mut shards = ShardManager::new(ShardConfig { total_shards: 4, replication_factor: 2, ..Default::default() });
    shards.add_node(1);
    shards.add_node(2);
    let mut partitions = PartitionManager::new(1, 2, 2, 10);
    partitions.add_node(2);
    let mut manager = FailureRecoveryManager::new(1, Arc::new(shards), Arc::new(partitions), 1, 10);
    manager.plan_recovery(vec![2]);
    let stats = manager.get_statistics();
    assert_eq!(stats.state, RecoveryState::Recovering);
    assert!(stats.pending_actions >= 4);
    manager.execute_recovery_actions();
    let stats = manager.get_statistics();
    assert_eq!(stats.state, RecoveryState::Recovered);
    assert_eq!(stats.pending_actions, 0);
}

// ---------------- topology ----------------

#[test]
fn test_node_address() {
    let addr = NodeAddress::new("192.168.1.10".to_string(), 8080);
    assert_eq!(addr.to_string(), "192.168.1.10:8080");
}
