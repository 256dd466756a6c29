use deed::transaction::{IsolationLevel, TransactionManager, TransactionState};

#[test]
fn transaction_test_begin_transaction() {
    let mut mgr = TransactionManager::new();

    let txn1 = mgr.begin(IsolationLevel::default()).unwrap();
    let txn2 = mgr.begin(IsolationLevel::default()).unwrap();

    assert_eq!(txn1, 1);
    assert_eq!(txn2, 2);
}

#[test]
fn test_commit_transaction() {
    let mut mgr = TransactionManager::new();

    let txn_id = mgr.begin(IsolationLevel::default()).unwrap();
    mgr.commit(txn_id).unwrap();

    let txn = mgr.get_transaction(txn_id).unwrap();
    assert!(txn.is_committed());
}

#[test]
fn test_rollback_transaction() {
    let mut mgr = TransactionManager::new();

    let txn_id = mgr.begin(IsolationLevel::default()).unwrap();
    mgr.rollback(txn_id).unwrap();

    // Transaction should be removed after rollback
    assert!(mgr.get_transaction(txn_id).is_err());
}

#[test]
fn test_track_operations() {
    let mut mgr = TransactionManager::new();

    let txn_id = mgr.begin(IsolationLevel::default()).unwrap();
    mgr.track_read(txn_id, 100, 1).unwrap();
    mgr.track_write(txn_id, 200).unwrap();

    let txn = mgr.get_transaction(txn_id).unwrap();
    assert_eq!(txn.read_set.len(), 1);
    assert_eq!(txn.write_set.len(), 1);
}

#[test]
fn test_get_min_active_txn() {
    let mut mgr = TransactionManager::new();

    let txn1 = mgr.begin(IsolationLevel::default()).unwrap();
    let txn2 = mgr.begin(IsolationLevel::default()).unwrap();
    let _txn3 = mgr.begin(IsolationLevel::default()).unwrap();

    mgr.commit(txn1).unwrap();

    let min_txn = mgr.get_min_active_txn();
    assert_eq!(min_txn, txn2);
}

#[test]
fn commit_of_unknown_transaction_fails() {
    let mut mgr = TransactionManager::new();
    let err = mgr.commit(42).unwrap_err();
    assert_eq!(err, "Transaction 42 not found");
}

#[test]
fn committed_transaction_cannot_track_or_commit_again() {
    let mut mgr = TransactionManager::new();
    let t = mgr.begin(IsolationLevel::Serializable).unwrap();
    mgr.commit(t).unwrap();
    assert!(mgr.track_write(t, 7).is_err());
    assert!(mgr.commit(t).is_err());
    let txn = mgr.get_transaction(t).unwrap();
    assert_eq!(txn.state, TransactionState::Committed);
    assert_eq!(txn.isolation_level, IsolationLevel::Serializable);
}

#[test]
fn write_set_holds_each_entity_once() {
    let mut mgr = TransactionManager::new();
    let t = mgr.begin(IsolationLevel::default()).unwrap();
    mgr.track_write(t, 5).unwrap();
    mgr.track_write(t, 5).unwrap();
    mgr.track_write(t, 6).unwrap();
    let txn = mgr.get_transaction(t).unwrap();
    assert_eq!(txn.write_set, vec![5, 6]);
}

#[test]
fn min_active_is_max_without_active_transactions() {
    let mut mgr = TransactionManager::new();
    assert_eq!(mgr.get_min_active_txn(), u64::MAX);
    let t = mgr.begin(IsolationLevel::default()).unwrap();
    assert_eq!(mgr.get_min_active_txn(), t);
    mgr.rollback(t).unwrap();
    assert_eq!(mgr.get_min_active_txn(), u64::MAX);
}

#[test]
fn active_ids_and_cleanup() {
    let mut mgr = TransactionManager::new();
    let a = mgr.begin(IsolationLevel::default()).unwrap();
    let b = mgr.begin(IsolationLevel::default()).unwrap();
    let c = mgr.begin(IsolationLevel::default()).unwrap();
    mgr.commit(a).unwrap();
    mgr.commit(b).unwrap();
    let mut ids = mgr.get_active_txn_ids();
    ids.sort();
    assert_eq!(ids, vec![c]);
    mgr.cleanup_old_transactions(b);
    assert!(mgr.get_transaction(a).is_err());
    assert!(mgr.get_transaction(b).is_ok());
}
