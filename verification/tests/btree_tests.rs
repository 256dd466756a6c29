use deed::btree::{key_less, BTreeIndex, IndexKey, IndexManager};
use deed::types::{EntityId, Properties, PropertyValue};

fn age_index(unique: bool) -> BTreeIndex {
    BTreeIndex::new(
        "idx_age".to_string(),
        "Users".to_string(),
        "age".to_string(),
        unique,
    )
}

fn float(x: f64) -> PropertyValue {
    PropertyValue::Float(x.to_bits())
}

#[test]
fn test_btree_index_insert_lookup() {
    let mut index = age_index(false);

    let entity1 = EntityId::new(1);
    let entity2 = EntityId::new(2);
    let entity3 = EntityId::new(3);

    index.insert(&PropertyValue::Int(30), entity1).unwrap();
    index.insert(&PropertyValue::Int(25), entity2).unwrap();
    index.insert(&PropertyValue::Int(30), entity3).unwrap();

    // Lookup exact match
    let result = index.lookup(&PropertyValue::Int(30));
    assert_eq!(result.len(), 2);
    assert!(result.contains(&entity1));
    assert!(result.contains(&entity3));

    let result = index.lookup(&PropertyValue::Int(25));
    assert_eq!(result.len(), 1);
    assert_eq!(result[0], entity2);
}

#[test]
fn test_unique_index() {
    let mut index = BTreeIndex::new(
        "idx_email".to_string(),
        "Users".to_string(),
        "email".to_string(),
        true,
    );

    let entity1 = EntityId::new(1);
    let entity2 = EntityId::new(2);

    // First insert succeeds
    index
        .insert(&PropertyValue::String("alice@example.com".to_string()), entity1)
        .unwrap();

    // Duplicate insert fails
    let result = index.insert(
        &PropertyValue::String("alice@example.com".to_string()),
        entity2,
    );
    assert!(result.is_err());
}

#[test]
fn test_range_scan() {
    let mut index = age_index(false);

    index.insert(&PropertyValue::Int(20), EntityId::new(1)).unwrap();
    index.insert(&PropertyValue::Int(25), EntityId::new(2)).unwrap();
    index.insert(&PropertyValue::Int(30), EntityId::new(3)).unwrap();
    index.insert(&PropertyValue::Int(35), EntityId::new(4)).unwrap();

    // Range scan [25, 32]
    let result = index.range_scan(&PropertyValue::Int(25), &PropertyValue::Int(32));
    assert_eq!(result.len(), 2); // Ages 25 and 30
}

#[test]
fn test_index_manager() {
    let mut manager = IndexManager::new();

    // Create index
    manager
        .create_index(
            "idx_age".to_string(),
            "Users".to_string(),
            "age".to_string(),
            false,
        )
        .unwrap();

    // Find index
    let index = manager.find_index("Users", "age");
    assert!(index.is_some());

    // Drop index
    manager.drop_index("idx_age").unwrap();

    // Index should be gone
    let index = manager.find_index("Users", "age");
    assert!(index.is_none());
}

#[test]
fn test_index_remove() {
    let mut index = age_index(false);

    let entity1 = EntityId::new(1);
    index.insert(&PropertyValue::Int(30), entity1).unwrap();

    assert_eq!(index.lookup(&PropertyValue::Int(30)).len(), 1);

    index.remove(&PropertyValue::Int(30), entity1);

    assert_eq!(index.lookup(&PropertyValue::Int(30)).len(), 0);
}

#[test]
fn lookup_gives_ids_in_insertion_order() {
    let mut index = age_index(false);
    index.insert(&PropertyValue::Int(7), EntityId::new(9)).unwrap();
    index.insert(&PropertyValue::Int(7), EntityId::new(4)).unwrap();
    index.insert(&PropertyValue::Int(7), EntityId::new(6)).unwrap();
    assert_eq!(
        index.lookup(&PropertyValue::Int(7)),
        vec![EntityId::new(9), EntityId::new(4), EntityId::new(6)]
    );
    assert_eq!(index.lookup(&PropertyValue::Int(8)), Vec::<EntityId>::new());
    assert_eq!(index.size(), 1);
    assert_eq!(index.total_entities(), 3);
}

#[test]
fn unique_index_reports_the_duplicate_key() {
    let mut index = age_index(true);
    index.insert(&PropertyValue::Int(30), EntityId::new(1)).unwrap();
    let err = index.insert(&PropertyValue::Int(30), EntityId::new(2)).unwrap_err();
    assert_eq!(err, "Unique constraint violated: duplicate key Int(30)");
    assert_eq!(index.lookup(&PropertyValue::Int(30)), vec![EntityId::new(1)]);
    // Another key is taken.
    index.insert(&PropertyValue::Int(31), EntityId::new(2)).unwrap();
    assert_eq!(index.size(), 2);
}

#[test]
fn remove_keeps_other_ids_and_drops_empty_keys() {
    let mut index = age_index(false);
    index.insert(&PropertyValue::Int(30), EntityId::new(1)).unwrap();
    index.insert(&PropertyValue::Int(30), EntityId::new(2)).unwrap();
    index.insert(&PropertyValue::Int(40), EntityId::new(3)).unwrap();
    index.remove(&PropertyValue::Int(30), EntityId::new(1));
    assert_eq!(index.lookup(&PropertyValue::Int(30)), vec![EntityId::new(2)]);
    assert_eq!(index.size(), 2);
    index.remove(&PropertyValue::Int(30), EntityId::new(2));
    assert_eq!(index.size(), 1);
    // Removing what is not there changes nothing.
    index.remove(&PropertyValue::Int(99), EntityId::new(3));
    index.remove(&PropertyValue::Int(40), EntityId::new(8));
    assert_eq!(index.lookup(&PropertyValue::Int(40)), vec![EntityId::new(3)]);
    assert_eq!(index.total_entities(), 1);
}

#[test]
fn scans_follow_key_order() {
    let mut index = age_index(false);
    index.insert(&PropertyValue::Int(35), EntityId::new(4)).unwrap();
    index.insert(&PropertyValue::Int(20), EntityId::new(1)).unwrap();
    index.insert(&PropertyValue::Int(30), EntityId::new(3)).unwrap();
    index.insert(&PropertyValue::Int(25), EntityId::new(2)).unwrap();

    assert_eq!(
        index.range_scan(&PropertyValue::Int(25), &PropertyValue::Int(35)),
        vec![EntityId::new(2), EntityId::new(3), EntityId::new(4)]
    );
    assert_eq!(
        index.range_scan(&PropertyValue::Int(30), &PropertyValue::Int(30)),
        vec![EntityId::new(3)]
    );
    assert_eq!(
        index.greater_than(&PropertyValue::Int(25)),
        vec![EntityId::new(3), EntityId::new(4)]
    );
    assert_eq!(
        index.less_than(&PropertyValue::Int(30)),
        vec![EntityId::new(1), EntityId::new(2)]
    );
    assert_eq!(index.less_than(&PropertyValue::Int(20)), Vec::<EntityId>::new());
}

#[test]
fn keys_of_different_kinds_order_by_kind() {
    let mut index = age_index(false);
    index.insert(&PropertyValue::String("b".to_string()), EntityId::new(5)).unwrap();
    index.insert(&float(1.5), EntityId::new(4)).unwrap();
    index.insert(&PropertyValue::Int(100), EntityId::new(3)).unwrap();
    index.insert(&PropertyValue::Bool(true), EntityId::new(2)).unwrap();
    index.insert(&PropertyValue::Null, EntityId::new(1)).unwrap();
    index.insert(&PropertyValue::String("a".to_string()), EntityId::new(6)).unwrap();
    assert_eq!(
        index.greater_than(&PropertyValue::Null),
        vec![
            EntityId::new(2),
            EntityId::new(3),
            EntityId::new(4),
            EntityId::new(6),
            EntityId::new(5)
        ]
    );
    assert!(key_less(&IndexKey::Int(i64::MAX), &IndexKey::Float(f64::MIN.to_bits())));
    assert!(key_less(&IndexKey::Float((-2.0f64).to_bits()), &IndexKey::Float((-1.0f64).to_bits())));
    assert!(key_less(&IndexKey::Float((-1.0f64).to_bits()), &IndexKey::Float(0.0f64.to_bits())));
}

#[test]
fn negative_zero_is_the_key_of_zero() {
    let mut index = age_index(true);
    index.insert(&float(0.0), EntityId::new(1)).unwrap();
    assert!(index.insert(&float(-0.0), EntityId::new(2)).is_err());
    assert_eq!(index.lookup(&float(-0.0)), vec![EntityId::new(1)]);
}

#[test]
fn manager_refuses_a_taken_name_and_reports_a_missing_one() {
    let mut manager = IndexManager::new();
    manager
        .create_index("idx".to_string(), "Users".to_string(), "age".to_string(), false)
        .unwrap();
    let err = manager
        .create_index("idx".to_string(), "Orders".to_string(), "total".to_string(), true)
        .unwrap_err();
    assert_eq!(err, "Index idx already exists");
    assert_eq!(manager.drop_index("nope").unwrap_err(), "Index nope not found");
    assert_eq!(manager.list_indexes(), vec!["idx".to_string()]);
    let index = manager.get_index("idx").unwrap();
    assert_eq!(index.collection, "Users");
    assert!(manager.get_index("nope").is_none());
}

#[test]
fn manager_keeps_every_index_of_a_collection_up_to_date() {
    let mut manager = IndexManager::new();
    manager
        .create_index("by_age".to_string(), "Users".to_string(), "age".to_string(), false)
        .unwrap();
    manager
        .create_index("by_mail".to_string(), "Users".to_string(), "mail".to_string(), true)
        .unwrap();
    manager
        .create_index("by_total".to_string(), "Orders".to_string(), "total".to_string(), false)
        .unwrap();

    let mut alice = Properties::new();
    alice.insert("age".to_string(), PropertyValue::Int(30));
    alice.insert("mail".to_string(), PropertyValue::String("a@x".to_string()));
    alice.insert("total".to_string(), PropertyValue::Int(5));
    manager.insert_into_indexes("Users", EntityId::new(1), &alice).unwrap();

    let by_age = manager.find_index("Users", "age").unwrap();
    assert_eq!(by_age.lookup(&PropertyValue::Int(30)), vec![EntityId::new(1)]);
    let by_total = manager.find_index("Orders", "total").unwrap();
    assert_eq!(by_total.size(), 0);

    // A second entity with the same mail is refused by the unique index,
    // after the age index before it has taken it.
    let mut bob = Properties::new();
    bob.insert("age".to_string(), PropertyValue::Int(31));
    bob.insert("mail".to_string(), PropertyValue::String("a@x".to_string()));
    let err = manager.insert_into_indexes("Users", EntityId::new(2), &bob).unwrap_err();
    assert_eq!(err, "Unique constraint violated: duplicate key String(\"a@x\")");
    let by_age = manager.find_index("Users", "age").unwrap();
    assert_eq!(by_age.lookup(&PropertyValue::Int(31)), vec![EntityId::new(2)]);

    let stats = manager.index_stats("by_age").unwrap();
    assert_eq!(stats.name, "by_age");
    assert_eq!(stats.collection, "Users");
    assert_eq!(stats.field, "age");
    assert!(!stats.unique);
    assert_eq!(stats.size, 2);
    assert_eq!(stats.total_entities, 2);
    assert!(manager.index_stats("nope").is_none());

    manager.remove_from_indexes("Users", EntityId::new(1), &alice);
    let by_mail = manager.get_index("by_mail").unwrap();
    assert_eq!(by_mail.size(), 0);
    let by_age = manager.get_index("by_age").unwrap();
    assert_eq!(by_age.total_entities(), 1);

    manager.drop_index("by_mail").unwrap();
    assert_eq!(
        manager.list_indexes(),
        vec!["by_age".to_string(), "by_total".to_string()]
    );
}

#[test]
fn duplicate_key_texts_follow_debug() {
    let mut index = age_index(true);
    index.insert(&float(30.0), EntityId::new(1)).unwrap();
    assert_eq!(
        index.insert(&float(30.0), EntityId::new(2)).unwrap_err(),
        "Unique constraint violated: duplicate key Float(OrderedFloat(30.0))"
    );
    index.insert(&float(-2.0), EntityId::new(3)).unwrap();
    assert_eq!(
        index.insert(&float(-2.0), EntityId::new(4)).unwrap_err(),
        "Unique constraint violated: duplicate key Float(OrderedFloat(-2.0))"
    );
    index.insert(&float(0.5), EntityId::new(5)).unwrap();
    assert_eq!(
        index.insert(&float(0.5), EntityId::new(6)).unwrap_err(),
        "Unique constraint violated: duplicate key Float(OrderedFloat(0x3fe0000000000000))"
    );
    index.insert(&PropertyValue::Int(-7), EntityId::new(7)).unwrap();
    assert_eq!(
        index.insert(&PropertyValue::Int(-7), EntityId::new(8)).unwrap_err(),
        "Unique constraint violated: duplicate key Int(-7)"
    );
    index.insert(&PropertyValue::Bytes(vec![1, 20]), EntityId::new(9)).unwrap();
    assert_eq!(
        index.insert(&PropertyValue::Bytes(vec![1, 20]), EntityId::new(10)).unwrap_err(),
        "Unique constraint violated: duplicate key Bytes([1, 20])"
    );
    index.insert(&PropertyValue::String("it's \"q\"".to_string()), EntityId::new(11)).unwrap();
    assert_eq!(
        index.insert(&PropertyValue::String("it's \"q\"".to_string()), EntityId::new(12)).unwrap_err(),
        "Unique constraint violated: duplicate key String(\"it's \\\"q\\\"\")"
    );
}
