use deed::backup::{
    backup_data_of, restore_from_data, sort_newest_first, BackupConfig, BackupManager, BackupMetadata, BackupType,
};
use deed::graph::Graph;
use deed::types::{EntityId, Properties, PropertyValue};

fn manager(compress: bool) -> BackupManager {
    let config = BackupConfig { backup_dir: "/tmp/deed_test_backups_2".to_string(), compress, verify: true };
    BackupManager::new(config, Ok(())).unwrap()
}

#[test]
fn test_full_backup_and_restore() {
    let mut graph = Graph::new();

    // Add test data
    let _entity_id = graph.create_entity("User".to_string(), Properties::new());

    // Create backup (the serialized text stands for the JSON the caller writes)
    let mut backup_mgr = manager(false);
    let data = backup_data_of(&graph);
    let serialized = format!("{} entities, {} edges", data.entities.len(), data.edges.len());
    let (checksum, bytes) = backup_mgr.backup_file_bytes(&serialized).unwrap();
    let metadata = backup_mgr.record_full_backup(
        "backup_1".to_string(),
        1,
        data.entities.len(),
        data.edges.len(),
        checksum,
    );

    assert_eq!(metadata.backup_type, BackupType::Full);
    assert_eq!(metadata.entity_count, 1);

    // Restore
    assert_eq!(backup_mgr.open_backup_bytes(bytes, &metadata).unwrap(), serialized);
    let restored_graph = restore_from_data(&data);

    assert_eq!(restored_graph.get_all_entities().len(), 1);
}

#[test]
fn test_backup_verification() {
    let mut graph = Graph::new();
    graph.create_entity("User".to_string(), Properties::new());

    let mut backup_mgr = manager(true);
    let data = backup_data_of(&graph);
    let serialized = "{\"entities\":[{\"id\":1}],\"edges\":[]}".to_string();
    let (checksum, bytes) = backup_mgr.backup_file_bytes(&serialized).unwrap();
    assert_ne!(bytes, serialized.as_bytes().to_vec());
    let metadata = backup_mgr.record_full_backup("backup_2".to_string(), 2, data.entities.len(), 0, checksum);

    let is_valid = backup_mgr.open_backup_bytes(bytes, &metadata).is_ok();
    assert!(is_valid);
}

#[test]
fn tampered_backups_are_refused() {
    let mut backup_mgr = manager(false);
    let (checksum, mut bytes) = backup_mgr.backup_file_bytes("payload").unwrap();
    let metadata = backup_mgr.record_full_backup("backup_3".to_string(), 3, 0, 0, checksum);
    bytes[0] = b'P';
    assert_eq!(
        backup_mgr.open_backup_bytes(bytes, &metadata).unwrap_err(),
        "Backup checksum mismatch - data may be corrupted"
    );
    let compressed_mgr = manager(true);
    let mut meta2 = metadata.clone();
    meta2.compressed = true;
    assert!(compressed_mgr.open_backup_bytes(b"not gzip".to_vec(), &meta2).is_err());
    let mut meta3 = metadata.clone();
    meta3.compressed = false;
    assert!(backup_mgr.open_backup_bytes(vec![0xff, 0xfe], &meta3).unwrap_err().starts_with("Invalid UTF-8 in backup"));
}

#[test]
fn restore_keeps_saved_entities_and_edges() {
    let mut graph = Graph::new();
    let mut props = Properties::new();
    props.insert("k".to_string(), PropertyValue::Int(7));
    let a = graph.add_entity("A".to_string(), props);
    let b = graph.add_entity("B".to_string(), Properties::new());
    let e = graph.add_edge(a, b, "R".to_string(), Properties::new()).unwrap();
    let data = backup_data_of(&graph);
    assert_eq!(data.entities.len(), 2);
    assert_eq!(data.edges.len(), 1);
    let restored = restore_from_data(&data);
    let ea = restored.get_entity(a).unwrap();
    assert_eq!(ea.entity_type, "A");
    assert_eq!(ea.get_property("k").unwrap().as_i64(), Some(7));
    assert_eq!(ea.access_count, 1);
    assert_eq!(restored.get_outgoing_neighbors(a, None), vec![(b, e)]);
    assert!(restored.get_entity(EntityId::new(3)).is_none());
}

#[test]
fn test_checksum_calculation() {
    let data1 = "test data";
    let data2 = "test data";
    let data3 = "different data";

    let checksum1 = deed::backup::calculate_checksum(data1);
    let checksum2 = deed::backup::calculate_checksum(data2);
    let checksum3 = deed::backup::calculate_checksum(data3);

    assert_eq!(checksum1, checksum2);
    assert_ne!(checksum1, checksum3);
}

fn meta(id: &str, timestamp: u64) -> BackupMetadata {
    BackupMetadata {
        backup_id: id.to_string(),
        backup_type: BackupType::Full,
        timestamp,
        entity_count: 0,
        edge_count: 0,
        compressed: false,
        checksum: String::new(),
        parent_backup_id: None,
    }
}

#[test]
fn listings_put_the_newest_backup_first_and_keep_ties_in_order() {
    let sorted = sort_newest_first(vec![meta("a", 10), meta("b", 30), meta("c", 10), meta("d", 20)]);
    let ids: Vec<&str> = sorted.iter().map(|b| b.backup_id.as_str()).collect();
    assert_eq!(ids, vec!["b", "d", "a", "c"]);
    assert!(sort_newest_first(vec![]).is_empty());
}

#[test]
fn compressed_backup_bytes_decode_to_the_data() {
    let backup_mgr = manager(true);
    let serialized = "3 entities, 2 edges";
    let (checksum, bytes) = backup_mgr.backup_file_bytes(serialized).unwrap();
    assert_ne!(bytes, serialized.as_bytes().to_vec());
    assert_eq!(bytes[0], 0x1f);
    assert_eq!(bytes[1], 0x8b);
    assert_eq!(checksum.len(), 64);
}
