use deed::distributed_consensus::{LogEntry, RaftConfig, RaftMessage, RaftNode, RaftState};

fn create_test_node(node_id: u64) -> RaftNode {
    // The node's network lives outside the state machine.
    RaftNode::new(node_id, RaftConfig::default())
}

#[test]
fn test_initial_state() {
    let node = create_test_node(1);
    assert_eq!(node.get_state(), RaftState::Follower);
    assert_eq!(node.get_current_term(), 0);
    assert_eq!(node.get_current_leader(), None);
}

#[test]
fn test_add_cluster_node() {
    let mut node = create_test_node(1);
    node.add_cluster_node(2);
    node.add_cluster_node(3);

    let nodes = node.get_cluster_nodes();
    assert_eq!(nodes.len(), 2);
}

#[test]
fn test_append_entry_not_leader() {
    let mut node = create_test_node(1);
    let result = node.append_entry(vec![1, 2, 3]);
    assert!(result.is_err());
}

#[test]
fn test_become_leader() {
    let mut node = create_test_node(1);
    node.add_cluster_node(2);
    node.add_cluster_node(3);

    node.become_leader();

    assert_eq!(node.get_state(), RaftState::Leader);
    assert_eq!(node.get_current_leader(), Some(1));
    assert!(node.is_leader());
}

#[test]
fn test_raft_stats() {
    let node = create_test_node(1);
    let stats = node.get_statistics();

    assert_eq!(stats.node_id, 1);
    assert_eq!(stats.state, RaftState::Follower);
    assert_eq!(stats.current_term, 0);
    assert_eq!(stats.log_length, 0);
}

fn vote(node: &mut RaftNode, term: u64, candidate: u64, lli: u64, llt: u64) -> bool {
    match node.handle_message(candidate, RaftMessage::RequestVote { term, candidate_id: candidate, last_log_index: lli, last_log_term: llt }) {
        Some(RaftMessage::VoteResponse { vote_granted, .. }) => vote_granted,
        _ => panic!("expected a vote response"),
    }
}

#[test]
fn one_vote_per_term() {
    let mut node = create_test_node(1);
    assert!(vote(&mut node, 1, 2, 0, 0));
    assert!(!vote(&mut node, 1, 3, 0, 0));
    assert!(vote(&mut node, 1, 2, 0, 0));
    assert!(vote(&mut node, 2, 3, 0, 0));
    assert_eq!(node.get_current_term(), 2);
    assert!(!vote(&mut node, 1, 4, 5, 5));
}

#[test]
fn append_entries_and_commit() {
    let mut follower = create_test_node(2);
    let entries = vec![
        LogEntry { term: 1, index: 1, command: vec![1] },
        LogEntry { term: 1, index: 2, command: vec![2] },
    ];
    let reply = follower.handle_message(1, RaftMessage::AppendEntries {
        term: 1,
        leader_id: 1,
        prev_log_index: 0,
        prev_log_term: 0,
        entries,
        leader_commit: 5,
    });
    match reply {
        Some(RaftMessage::AppendEntriesResponse { term, success, match_index }) => {
            assert_eq!((term, success, match_index), (1, true, 2));
        }
        _ => panic!("expected an append response"),
    }
    let stats = follower.get_statistics();
    assert_eq!(stats.commit_index, 2);
    assert_eq!(stats.current_leader, Some(1));
    // A candidate with a shorter log of the same term gets no vote.
    assert!(!vote(&mut follower, 2, 3, 1, 1));
    // Stale entries are refused.
    match follower.handle_message(1, RaftMessage::AppendEntries {
        term: 1,
        leader_id: 1,
        prev_log_index: 0,
        prev_log_term: 0,
        entries: vec![],
        leader_commit: 0,
    }) {
        Some(RaftMessage::AppendEntriesResponse { success, .. }) => assert!(!success),
        _ => panic!("expected an append response"),
    }
}

#[test]
fn leader_commits_on_majority() {
    let mut leader = create_test_node(1);
    leader.add_cluster_node(2);
    leader.add_cluster_node(3);
    leader.start_election();
    assert_eq!(leader.get_state(), RaftState::Candidate);
    assert_eq!(leader.get_current_term(), 1);
    leader.become_leader();
    assert_eq!(leader.append_entry(vec![7]).unwrap(), 1);
    assert_eq!(leader.append_entry(vec![8]).unwrap(), 2);
    leader.handle_append_entries_response(2, 1, true, 2);
    assert_eq!(leader.get_statistics().commit_index, 2);
    leader.handle_append_entries_response(3, 5, false, 0);
    assert_eq!(leader.get_state(), RaftState::Follower);
    assert_eq!(leader.get_current_term(), 5);
}

#[test]
fn lone_node_elects_itself() {
    let mut node = create_test_node(9);
    node.start_election();
    assert!(node.is_leader());
    match node.heartbeat_message() {
        RaftMessage::AppendEntries { term, leader_id, entries, .. } => {
            assert_eq!((term, leader_id, entries.len()), (1, 9, 0));
        }
        _ => panic!("expected a heartbeat"),
    }
}

#[test]
fn elections_fall_due_after_the_timeout() {
    let node = RaftNode::new_at(1, RaftConfig::default(), 1000);
    for _ in 0..50 {
        let t = node.election_timeout_ms();
        assert!((150..300).contains(&t));
    }
    assert!(node.election_due(1200, 150));
    assert!(!node.election_due(1100, 150));
    assert!(!node.election_due(500, 150));
    let mut leader = RaftNode::new_at(2, RaftConfig::default(), 0);
    leader.start_election();
    assert!(leader.is_leader());
    assert!(!leader.election_due(10_000, 150));
}
