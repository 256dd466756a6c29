use deed::mvcc::{EntityVersion, MVCCManager, VersionedEntity};
use deed::transaction::IsolationLevel;
use deed::types::EntityId;

// The versioned data is carried as is; a user record stands for it here.
#[derive(Debug, Clone, PartialEq)]
struct User {
    id: u64,
    name: String,
}

fn create_test_entity(id: u64, name: &str) -> User {
    User { id, name: name.to_string() }
}

#[test]
fn test_entity_version_visibility() {
    let entity = create_test_entity(1, "Alice");
    let version = EntityVersion::new(entity, 1, 10, 0);

    // Transaction 11 can see version created by txn 10
    assert!(version.is_visible(11, IsolationLevel::ReadCommitted));

    // Transaction 5 cannot see version created by txn 10
    assert!(!version.is_visible(5, IsolationLevel::ReadCommitted));
}

#[test]
fn test_entity_version_deletion() {
    let entity = create_test_entity(1, "Alice");
    let mut version = EntityVersion::new(entity, 1, 10, 0);

    version.mark_deleted(20);

    // Transaction 15 can see (created at 10, deleted at 20)
    assert!(version.is_visible(15, IsolationLevel::ReadCommitted));

    // Transaction 25 cannot see (deleted at 20)
    assert!(!version.is_visible(25, IsolationLevel::ReadCommitted));
}

#[test]
fn test_versioned_entity() {
    let entity = create_test_entity(1, "Alice");
    let mut versioned = VersionedEntity::new(EntityId::new(1), entity, 1);

    // Add a new version
    let entity2 = create_test_entity(1, "Alice Updated");
    versioned.add_version(entity2, 5, 100);

    assert_eq!(versioned.version_count(), 2);

    // Transaction 3 should see version 1
    let v3 = versioned.get_visible_version(3, IsolationLevel::ReadCommitted);
    assert!(v3.is_some());
    assert_eq!(v3.unwrap().version, 1);

    // Transaction 10 should see version 2
    let v10 = versioned.get_visible_version(10, IsolationLevel::ReadCommitted);
    assert!(v10.is_some());
    assert_eq!(v10.unwrap().version, 2);
}

#[test]
fn test_garbage_collection() {
    let entity = create_test_entity(1, "Alice");
    let mut versioned = VersionedEntity::new(EntityId::new(1), entity.clone(), 1);

    // Add multiple versions
    for i in 2..10 {
        versioned.add_version(entity.clone(), i * 10, i * 100);
    }

    assert_eq!(versioned.version_count(), 9);

    // GC with min_active_txn = 50
    // Should keep versions created by txn >= 50
    versioned.garbage_collect(50);

    // Should have fewer versions now
    assert!(versioned.version_count() < 9);
    assert!(versioned.version_count() >= 1); // At least one kept
}

#[test]
fn test_mvcc_manager() {
    let mut mgr = MVCCManager::new();

    mgr.update_min_active_txn(42);
    assert_eq!(mgr.get_min_active_txn(), 42);

    let entity = create_test_entity(1, "Alice");
    let version = EntityVersion::new(entity, 1, 10, 0);

    // Version created at 10 should be GC-able if min_active is 42
    assert!(mgr.should_gc_version(&version));
}

#[test]
fn gc_keeps_what_active_transactions_read() {
    let mut v = VersionedEntity::new(EntityId::new(7), 0u32, 1);
    for i in 2..10u64 {
        v.add_version(i as u32, i * 10, 0);
    }
    let before: Vec<Option<u64>> =
        (50..120).map(|t| v.get_visible_version(t, IsolationLevel::ReadCommitted).map(|x| x.version)).collect();
    v.garbage_collect(50);
    // Versions created by 40, 50, ..., 90 remain.
    let kept: Vec<u64> = v.versions.iter().map(|x| x.created_by_txn).collect();
    assert_eq!(kept, vec![40, 50, 60, 70, 80, 90]);
    let after: Vec<Option<u64>> =
        (50..120).map(|t| v.get_visible_version(t, IsolationLevel::ReadCommitted).map(|x| x.version)).collect();
    assert_eq!(before, after);
}

#[test]
fn delete_marks_latest_and_read_uncommitted_ignores_creator() {
    let mut v = VersionedEntity::new(EntityId::new(1), "a", 5);
    assert!(v.is_live());
    v.delete(8);
    assert!(!v.is_live());
    assert_eq!(v.get_latest_version().unwrap().deleted_by_txn, Some(8));
    assert!(v.get_visible_version(3, IsolationLevel::ReadUncommitted).is_some());
    assert!(v.get_visible_version(3, IsolationLevel::Serializable).is_none());
    assert!(v.get_visible_version(9, IsolationLevel::ReadUncommitted).is_none());
    let mgr = MVCCManager::default();
    assert_eq!(mgr.get_min_active_txn(), u64::MAX);
}
