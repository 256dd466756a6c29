use deed::auth::{hash_password, AuthManager, Role, Session, User};

#[test]
fn test_password_hashing() {
    let password = "secret123";
    let hash1 = hash_password(password);
    let hash2 = hash_password(password);

    assert_eq!(hash1, hash2); // Same password = same hash
    assert_ne!(hash1, hash_password("different"));
}

#[test]
fn test_user_creation() {
    let user = User::new("alice".to_string(), "password123", Role::ReadWrite);

    assert_eq!(user.username, "alice");
    assert!(user.verify_password("password123"));
    assert!(!user.verify_password("wrong"));
    assert_eq!(user.role, Role::ReadWrite);
}

#[test]
fn test_auth_manager_login() {
    let mut manager = AuthManager::new();

    manager.create_user("alice".to_string(), "secret", Role::ReadWrite).unwrap();

    // Successful login
    let session_id = manager.login("alice", "secret").unwrap();
    assert!(!session_id.is_empty());

    // Failed login - wrong password
    assert!(manager.login("alice", "wrong").is_err());

    // Failed login - user doesn't exist
    assert!(manager.login("bob", "secret").is_err());
}

#[test]
fn test_session_validation() {
    let mut manager = AuthManager::new();

    manager.create_user("alice".to_string(), "secret", Role::Admin).unwrap();
    let session_id = manager.login("alice", "secret").unwrap();

    // Valid session
    let session = manager.validate_session(&session_id).unwrap();
    assert_eq!(session.username, "alice");
    assert_eq!(session.role, Role::Admin);

    // Invalid session
    assert!(manager.validate_session("invalid_id").is_err());
}

#[test]
fn test_permissions() {
    let mut manager = AuthManager::new();

    manager.create_user("admin_user".to_string(), "pass", Role::Admin).unwrap();
    manager.create_user("writer".to_string(), "pass", Role::ReadWrite).unwrap();
    manager.create_user("reader".to_string(), "pass", Role::ReadOnly).unwrap();

    let admin_session = manager.login("admin_user", "pass").unwrap();
    let writer_session = manager.login("writer", "pass").unwrap();
    let reader_session = manager.login("reader", "pass").unwrap();

    // Admin can do everything
    assert!(manager.check_read_permission(&admin_session).is_ok());
    assert!(manager.check_write_permission(&admin_session).is_ok());
    assert!(manager.check_admin_permission(&admin_session).is_ok());

    // Writer can read and write
    assert!(manager.check_read_permission(&writer_session).is_ok());
    assert!(manager.check_write_permission(&writer_session).is_ok());
    assert!(manager.check_admin_permission(&writer_session).is_err());

    // Reader can only read
    assert!(manager.check_read_permission(&reader_session).is_ok());
    assert!(manager.check_write_permission(&reader_session).is_err());
    assert!(manager.check_admin_permission(&reader_session).is_err());
}

#[test]
fn test_logout() {
    let mut manager = AuthManager::new();

    manager.create_user("alice".to_string(), "secret", Role::Admin).unwrap();
    let session_id = manager.login("alice", "secret").unwrap();

    // Session is valid
    assert!(manager.validate_session(&session_id).is_ok());

    // Logout
    manager.logout(&session_id).unwrap();

    // Session is now invalid
    assert!(manager.validate_session(&session_id).is_err());
}

#[test]
fn test_change_password() {
    let mut manager = AuthManager::new();

    manager.create_user("alice".to_string(), "old_pass", Role::Admin).unwrap();

    // Old password works
    assert!(manager.login("alice", "old_pass").is_ok());

    // Change password
    manager.change_password("alice", "new_pass").unwrap();

    // Old password doesn't work
    assert!(manager.login("alice", "old_pass").is_err());

    // New password works
    assert!(manager.login("alice", "new_pass").is_ok());
}

#[test]
fn hash_is_lowercase_hex_sha256() {
    assert_eq!(
        hash_password("abc"),
        "ba7816bf8f01cfea414140de5dae2223b00361a396177a9cb410ff61f20015ad"
    );
}

#[test]
fn default_admin_exists_and_duplicates_are_refused() {
    let mut manager = AuthManager::new();
    assert!(manager.login("admin", "admin").is_ok());
    let err = manager.create_user("admin".to_string(), "x", Role::ReadOnly).unwrap_err();
    assert_eq!(err, "User admin already exists");
    let users = manager.list_users();
    assert_eq!(users.len(), 1);
    assert_eq!(users[0].username, "admin");
}

#[test]
fn error_messages() {
    let mut manager = AuthManager::new();
    assert_eq!(manager.delete_user("ghost").unwrap_err(), "User ghost not found");
    assert_eq!(manager.change_password("ghost", "p").unwrap_err(), "User ghost not found");
    assert_eq!(manager.login("ghost", "p").unwrap_err(), "User ghost not found");
    assert_eq!(manager.login("admin", "nope").unwrap_err(), "Invalid password");
    assert_eq!(manager.logout("nope").unwrap_err(), "Invalid session");
    assert_eq!(manager.validate_session("nope").unwrap_err(), "Invalid session");
    manager.create_user("r".to_string(), "p", Role::ReadOnly).unwrap();
    let s = manager.login("r", "p").unwrap();
    assert_eq!(
        manager.check_write_permission(&s).unwrap_err(),
        "Permission denied: write access required"
    );
    assert_eq!(
        manager.check_admin_permission(&s).unwrap_err(),
        "Permission denied: admin access required"
    );
}

#[test]
fn expired_session_is_refused_and_removed() {
    let mut manager = AuthManager::new();
    let id = manager.login("admin", "admin").unwrap();
    let session = manager.validate_session(&id).unwrap();
    let later = session.expires_at + 1;
    assert_eq!(manager.validate_session_at(&id, later).unwrap_err(), "Session expired");
    assert_eq!(manager.validate_session_at(&id, session.created_at).unwrap_err(), "Invalid session");
}

#[test]
fn session_expiry_and_cleanup_at_given_times() {
    let s = Session::new_at("u".to_string(), Role::ReadOnly, 10, 5, 100);
    assert_eq!(s.expires_at, 110);
    assert!(!s.is_expired_at(110));
    assert!(s.is_expired_at(111));
    assert!(s.can_read() && !s.can_write() && !s.is_admin());

    let mut manager = AuthManager::new();
    let id = manager.login("admin", "admin").unwrap();
    let session = manager.validate_session(&id).unwrap();
    assert_eq!(manager.list_active_sessions_at(session.expires_at - 1).len(), 1);
    assert_eq!(manager.list_active_sessions_at(session.expires_at).len(), 0);
    manager.cleanup_expired_sessions_at(session.expires_at);
    assert!(manager.validate_session(&id).is_err());
}

#[test]
fn delete_user_removes_account() {
    let mut manager = AuthManager::new();
    manager.create_user("bob".to_string(), "pw", Role::ReadWrite).unwrap();
    manager.delete_user("bob").unwrap();
    assert!(manager.login("bob", "pw").is_err());
}

#[test]
fn login_keeps_the_other_sessions() {
    let mut manager = AuthManager::new();
    manager.create_user("admin_user".to_string(), "pass", Role::Admin).unwrap();
    manager.create_user("reader".to_string(), "pass", Role::ReadOnly).unwrap();
    let now = 1_000;
    let a = manager.login_at("admin_user", "pass", now).unwrap();
    let before = manager.validate_session_at(&a, now).unwrap();
    let r = manager.login_at("reader", "pass", now + 5).unwrap();
    let after = manager.validate_session_at(&a, now + 5).unwrap();
    assert_eq!(after.role, Role::Admin);
    assert_eq!(after.expires_at, before.expires_at);
    assert_eq!(after.created_at, before.created_at);
    assert_eq!(manager.check_admin_permission_at(&a, now + 5), Ok(()));
    assert_eq!(manager.check_write_permission_at(&a, now + 5), Ok(()));
    assert_eq!(
        manager.check_write_permission_at(&r, now + 5),
        Err("Permission denied: write access required".to_string())
    );
}

#[test]
fn session_ids_are_sha256_hex_digests() {
    let mut manager = AuthManager::new();
    let id = manager.login_at("admin", "admin", 77).unwrap();
    assert_eq!(id.len(), 64);
    assert!(id.chars().all(|c| c.is_ascii_digit() || ('a'..='f').contains(&c)));
    let s = Session::new("u".to_string(), Role::ReadOnly, 10);
    assert_eq!(s.session_id.len(), 64);
}
