use deed::admin_dashboard::{
    format_bar, format_duration, format_timestamp, pad_right, AdminDashboard, LAST_DATED_SECOND, AuthStats, DashboardStats,
    DatabaseStats, RoleBreakdown, TransactionStats,
};
use deed::auth::{AuthManager, Role};
use deed::backup::{backup_id_at, calculate_checksum, BackupConfig, BackupManager, BackupMetadata, BackupType};
use deed::connection_pool::{PoolConfig, PoolStats};
use deed::replication::{NodeRole, ReplicationStats};
use deed::graph::Graph;
use deed::text::{u128_to_string, u64_hex_text, u64_to_string, usize_to_string};
use deed::types::{Properties, PropertyValue};

#[test]
fn test_dashboard_creation() {
    let dashboard = AdminDashboard::new();
    assert!(dashboard.start_time() > 0);
}

#[test]
fn test_format_duration() {
    assert_eq!(format_duration(30), "30s");
    assert_eq!(format_duration(90), "1m 30s");
    assert_eq!(format_duration(3665), "1h 1m 5s");
    assert_eq!(format_duration(90000), "1d 1h 0m 0s");
}

#[test]
fn test_format_bar() {
    assert_eq!(format_bar(0, 10, 10), "[░░░░░░░░░░]");
    assert_eq!(format_bar(5, 10, 10), "[█████░░░░░]");
    assert_eq!(format_bar(10, 10, 10), "[██████████]");
}

#[test]
fn test_pad_right() {
    assert_eq!(pad_right("test", 10), "test      ");
    assert_eq!(pad_right("testing123", 5), "testi");
}

#[test]
fn bar_with_zero_maximum_is_empty() {
    assert_eq!(format_bar(3, 0, 4), "[░░░░]");
    assert_eq!(format_bar(1, 3, 20), "[██████░░░░░░░░░░░░░░]");
}

#[test]
fn timestamps_are_utc() {
    assert_eq!(format_timestamp(0), "1970-01-01 00:00:00 UTC");
    assert_eq!(format_timestamp(1_000_000_000), "2001-09-09 01:46:40 UTC");
}

fn sample_stats() -> DashboardStats {
    DashboardStats {
        database: DatabaseStats { entity_count: 42, edge_count: 7, total_properties: 100, collections: vec!["User".to_string()] },
        pool: Some(PoolStats { total_connections: 3, active_connections: 1, idle_connections: 2, max_size: 10, min_size: 2 }),
        replication: Some(ReplicationStats {
            node_id: "master-1".to_string(),
            role: NodeRole::Master,
            current_seq: 12,
            log_size: 5,
            slave_count: 1,
            max_slave_lag_ms: 30,
            min_slave_seq: 9,
        }),
        auth: AuthStats {
            total_users: 3,
            active_sessions: 1,
            users_by_role: RoleBreakdown { admin_count: 1, readwrite_count: 1, readonly_count: 1 },
        },
        transactions: TransactionStats { active_transactions: 2, committed_transactions: 10, rollbacked_transactions: 1 },
        uptime_seconds: 3665,
    }
}

#[test]
fn dashboard_text_has_every_section() {
    let dashboard = AdminDashboard::new_at(0);
    let stats = sample_stats();
    let util = format!("{:>5.1}", 10.0f64);
    let text = dashboard.format_dashboard_at(&stats, 0, &util);
    assert!(text.starts_with("╔══════════════════════════════════════════════════════════════╗\n"));
    assert!(text.contains("⏱  Uptime: 1h 1m 5s (1970-01-01 00:00:00 UTC)\n\n"));
    assert!(text.contains(&format!("│ Entities:    {:>10}                                      │\n", 42)));
    assert!(text.contains(&format!("│ Collections: {:>10}                                      │\n", 1)));
    assert!(text.contains(&format!(
        "│ Total:   {:>3} / {:>3} (min: {:>2}, max: {:>2})                     │\n",
        3, 10, 2, 10
    )));
    assert!(text.contains(&format!("│ Active:  {:>3}  {}                                │\n", 1, "[██░░░░░░░░░░░░░░░░░░]")));
    assert!(text.contains(&format!("│ Utilization: {:>5.1}%                                         │\n", 10.0f64)));
    assert!(text.contains(&format!("│ Node:     {}                                          │\n", "master-1            ")));
    assert!(text.contains("│ Role:     Master                                              │\n"));
    assert!(text.contains(&format!("│ Max Lag:  {:>10} ms                                  │\n", 30)));
    assert!(text.contains(&format!("│   ReadOnly:  {:>5}                                         │\n", 1)));
    let tail = format!(
        "│ Rolled Back: {:>10}                                      │\n└─────────────────────────────────────────────────────────────┘\n\n",
        1
    );
    assert!(text.ends_with(&tail));
}

#[test]
fn dashboard_without_pool_or_replication() {
    let dashboard = AdminDashboard::new_at(0);
    let mut stats = sample_stats();
    stats.pool = None;
    stats.replication = None;
    let text = dashboard.format_dashboard_at(&stats, 0, "");
    assert!(!text.contains("CONNECTION POOL"));
    assert!(!text.contains("REPLICATION"));
    assert!(text.contains("AUTHENTICATION"));
    assert_eq!(dashboard.uptime_at(90), 90);
}

#[test]
fn backups_listing() {
    let dashboard = AdminDashboard::new_at(0);
    let empty = dashboard.format_backups(&[]);
    assert!(empty.ends_with("No backups found.\n"));
    let b = BackupMetadata {
        backup_id: "backup_1".to_string(),
        backup_type: BackupType::Full,
        timestamp: 0,
        entity_count: 3,
        edge_count: 2,
        compressed: true,
        checksum: "0123456789abcdef0123".to_string(),
        parent_backup_id: None,
    };
    let text = dashboard.format_backups(&[b]);
    assert!(text.contains("1. backup_1\n   Type:      Full\n   Time:      1970-01-01 00:00:00 UTC\n"));
    assert!(text.contains("   Compressed: true\n   Checksum:  0123456789abcdef\n\n"));
}

#[test]
fn auth_stats_count_roles() {
    let dashboard = AdminDashboard::new_at(0);
    let mut auth = AuthManager::new();
    auth.create_user("w".to_string(), "p", Role::ReadWrite).unwrap();
    auth.create_user("r".to_string(), "p", Role::ReadOnly).unwrap();
    auth.create_user("r2".to_string(), "p", Role::ReadOnly).unwrap();
    auth.login("w", "p").unwrap();
    let stats = dashboard.get_auth_stats(&auth);
    assert_eq!(stats.total_users, 4);
    assert_eq!(stats.active_sessions, 1);
    assert_eq!(stats.users_by_role.admin_count, 1);
    assert_eq!(stats.users_by_role.readwrite_count, 1);
    assert_eq!(stats.users_by_role.readonly_count, 2);
}

#[test]
fn pool_config_defaults() {
    let c = PoolConfig::default();
    assert_eq!((c.min_size, c.max_size, c.connection_timeout, c.max_idle_time), (2, 10, 30, 300));
    assert!(c.health_check_enabled);
}

#[test]
fn test_backup_manager_creation() {
    let config = BackupConfig {
        backup_dir: "/tmp/deed_test_backups".to_string(),
        compress: true,
        verify: true,
    };

    // The directory was created by the caller.
    let result = BackupManager::new(config, Ok(()));
    assert!(result.is_ok());
}

#[test]
fn backup_manager_reports_directory_failure() {
    let err = BackupManager::with_defaults(Err("denied".to_string())).err().unwrap();
    assert_eq!(err, "Failed to create backup directory: denied");
    let m = BackupManager::with_defaults(Ok(())).ok().unwrap();
    assert_eq!(m.config().backup_dir, "./backups");
    assert!(m.last_backup_id().is_none());
}

#[test]
fn backup_ids_checksums_and_restore_check() {
    assert_eq!(backup_id_at(1700000000), "backup_1700000000");
    let sum = calculate_checksum("abc");
    assert_eq!(sum, "ba7816bf8f01cfea414140de5dae2223b00361a396177a9cb410ff61f20015ad");
    let mut m = BackupManager::new(BackupConfig::default(), Ok(())).ok().unwrap();
    let meta = m.record_full_backup("backup_5".to_string(), 5, 1, 0, sum.clone());
    assert_eq!(m.last_backup_id(), Some("backup_5".to_string()));
    assert!(meta.compressed);
    assert!(m.check_restore_data("abc", &meta).is_ok());
    assert_eq!(
        m.check_restore_data("abd", &meta).unwrap_err(),
        "Backup checksum mismatch - data may be corrupted"
    );
    assert!(m.verify_data("abc", &meta));
    assert!(!m.verify_data("x", &meta));
}

#[test]
fn database_stats_of_a_graph() {
    let mut graph = Graph::new();
    let mut p = Properties::new();
    p.insert("a".to_string(), PropertyValue::Int(1));
    p.insert("b".to_string(), PropertyValue::Bool(true));
    let x = graph.add_entity("User".to_string(), p);
    let mut q = Properties::new();
    q.insert("c".to_string(), PropertyValue::Null);
    let y = graph.add_entity("Post".to_string(), q);
    graph.add_entity("User".to_string(), Properties::new());
    graph.add_edge(x, y, "WROTE".to_string(), Properties::new());
    let dashboard = AdminDashboard::new_at(100);
    let stats = dashboard.get_database_stats(&graph);
    assert_eq!(stats.entity_count, 3);
    assert_eq!(stats.edge_count, 1);
    assert_eq!(stats.total_properties, 3);
    let mut names = stats.collections.clone();
    names.sort();
    assert_eq!(names, vec!["Post".to_string(), "User".to_string()]);
}

#[test]
fn test_database_stats() {
    let dashboard = AdminDashboard::new();
    let graph = Graph::new();

    let stats = dashboard.get_database_stats(&graph);
    assert_eq!(stats.entity_count, 0);
    assert_eq!(stats.edge_count, 0);
}

#[test]
fn pad_right_counts_utf8_bytes() {
    // "é" takes two bytes: three bytes short of five.
    assert_eq!(pad_right("é", 5), "é   ");
    // A cut falls after whole characters of the first bytes.
    assert_eq!(pad_right("aéb", 3), "aé");
    assert_eq!(pad_right("ééé", 4), "éé");
    assert_eq!(pad_right("exact", 5), "exact");
}

#[test]
fn last_dated_second_is_the_end_of_the_last_year() {
    assert_eq!(format_timestamp(LAST_DATED_SECOND), "+262142-12-31 23:59:59 UTC");
}

#[test]
fn decimal_and_hex_texts() {
    assert_eq!(u64_to_string(0), "0");
    assert_eq!(u64_to_string(1_000_000_007), "1000000007");
    assert_eq!(u64_to_string(u64::MAX), "18446744073709551615");
    assert_eq!(usize_to_string(42), "42");
    assert_eq!(u128_to_string(u128::MAX), u128::MAX.to_string());
    assert_eq!(u64_hex_text(0), "0");
    assert_eq!(u64_hex_text(255), "ff");
    assert_eq!(u64_hex_text(0xdead_beef_0123), "deadbeef0123");
}
