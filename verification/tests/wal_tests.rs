use deed::transaction::IsolationLevel;
use deed::wal::{frame_entry, read_frames, recover_entries, WALEntry, WALHeader, WAL_HEADER_LEN, WAL_MAGIC, WAL_VERSION};

fn header_bytes() -> Vec<u8> {
    let h = WALHeader::new();
    let mut v = Vec::new();
    v.extend_from_slice(&h.magic.to_le_bytes());
    v.extend_from_slice(&h.version.to_le_bytes());
    v.extend_from_slice(&h.created_at.to_le_bytes());
    v
}

#[test]
fn test_wal_write_read() {
    // Two entries' bytes written as frames after the header are read back.
    let first = vec![1u8, 2, 3];
    let second: Vec<u8> = (0..300u16).map(|x| (x % 251) as u8).collect();
    let mut log = header_bytes();
    assert_eq!(log.len(), WAL_HEADER_LEN);
    log.extend(frame_entry(&first));
    log.extend(frame_entry(&second));
    let frames = read_frames(&log, WAL_HEADER_LEN).unwrap();
    assert_eq!(frames.len(), 2);
    assert_eq!(frames[0], first);
    assert_eq!(frames[1], second);

    let begin = WALEntry::BeginTransaction { txn_id: 1, isolation_level: IsolationLevel::ReadCommitted, timestamp: 1000 };
    let commit = WALEntry::Commit { txn_id: 1, timestamp: 2000 };
    assert!(begin.txn_id() == 1);
    assert!(commit.is_commit());
    assert!(!commit.is_rollback());
}

#[test]
fn test_wal_recovery() {
    let entries = vec![
        WALEntry::BeginTransaction { txn_id: 1, isolation_level: IsolationLevel::ReadCommitted, timestamp: 1 },
        WALEntry::Commit { txn_id: 1, timestamp: 2 },
        WALEntry::BeginTransaction { txn_id: 2, isolation_level: IsolationLevel::ReadCommitted, timestamp: 3 },
        // Transaction 2 never commits
    ];
    let result = recover_entries(entries);
    assert_eq!(result.committed_txns.len(), 1);
    assert_eq!(result.active_txns.len(), 1); // Transaction 2 is still active
    assert_eq!(result.entries.len(), 3);
}

#[test]
fn frames_prefix_and_truncation() {
    let framed = frame_entry(&vec![9u8; 258]);
    assert_eq!(&framed[..4], &[2u8, 1, 0, 0]);
    assert_eq!(framed.len(), 262);
    // Fewer than 4 bytes left ends the log; a cut frame is an error.
    let mut log = framed.clone();
    log.extend_from_slice(&[7, 7]);
    assert_eq!(read_frames(&log, 0).unwrap().len(), 1);
    let cut = framed[..100].to_vec();
    assert_eq!(read_frames(&cut, 0).unwrap_err(), "failed to fill whole buffer");
    assert!(read_frames(&Vec::new(), 0).unwrap().is_empty());
}

#[test]
fn recovery_classifies_transactions() {
    let entries = vec![
        WALEntry::BeginTransaction { txn_id: 1, isolation_level: IsolationLevel::Serializable, timestamp: 1 },
        WALEntry::BeginTransaction { txn_id: 2, isolation_level: IsolationLevel::Serializable, timestamp: 1 },
        WALEntry::DeleteEdge { txn_id: 2, edge_id: 5 },
        WALEntry::Rollback { txn_id: 2, timestamp: 2 },
        WALEntry::Checkpoint { txn_id: 0, timestamp: 3 },
        WALEntry::Commit { txn_id: 1, timestamp: 4 },
        WALEntry::BeginTransaction { txn_id: 3, isolation_level: IsolationLevel::Serializable, timestamp: 5 },
    ];
    let result = recover_entries(entries);
    assert_eq!(result.committed_txns, vec![1]);
    assert_eq!(result.aborted_txns, vec![2]);
    assert!(result.active_txns.contains(&3));
    assert_eq!(result.active_txns.len(), 1);
    let h = WALHeader::new();
    assert!(h.is_valid());
    assert_eq!((h.magic, h.version), (WAL_MAGIC, WAL_VERSION));
    assert!(!WALHeader { magic: 1, version: WAL_VERSION, created_at: 0 }.is_valid());
}
