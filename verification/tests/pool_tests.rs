use deed::connection_pool::{wait_budget, Checkout, ConnectionPool, PoolConfig};

fn create_test_pool() -> ConnectionPool<u32> {
    ConnectionPool::new(&|| 0u32, PoolConfig::default(), 0).unwrap()
}

#[test]
fn test_pool_creation() {
    let pool = create_test_pool();

    // Should have min_size connections
    assert_eq!(pool.size(), 2);
    assert_eq!(pool.idle_connections(), 2);
    assert_eq!(pool.active_connections(), 0);
}

#[test]
fn test_get_connection() {
    let mut pool = create_test_pool();

    let handle = pool.checkout_step(&|| 0u32, 1);

    assert_eq!(pool.active_connections(), 1);
    assert_eq!(pool.idle_connections(), 1);

    // Should be able to get executor
    match handle {
        Checkout::Ready(i) => assert!(pool.connection(i).is_some()),
        Checkout::Wait => panic!("no connection handed out"),
    }
}

#[test]
fn test_connection_return() {
    let mut pool = create_test_pool();

    {
        let handle = pool.checkout_step(&|| 0u32, 1);
        assert_eq!(pool.active_connections(), 1);
        if let Checkout::Ready(i) = handle {
            pool.checkin(i, 2);
        }
    }

    // Connection should be returned
    assert_eq!(pool.active_connections(), 0);
    assert_eq!(pool.idle_connections(), 2);
}

#[test]
fn test_pool_max_size() {
    let config = PoolConfig {
        min_size: 1,
        max_size: 2,
        connection_timeout: 1,
        max_idle_time: 300,
        health_check_enabled: false,
    };

    let mut pool = ConnectionPool::new(&|| 0u32, config, 0).unwrap();

    let conn1 = pool.checkout_step(&|| 0u32, 1);
    let conn2 = pool.checkout_step(&|| 0u32, 2);
    assert_eq!(conn1, Checkout::Ready(0));
    assert_eq!(conn2, Checkout::Ready(1));

    // Should not be able to get a third connection (with short timeout)
    assert_eq!(pool.checkout_step(&|| 0u32, 3), Checkout::Wait);
    let result = wait_budget(&config, 1_000_000_000);
    assert!(result.is_err());
    assert!(result.unwrap_err().contains("timeout"));
}

#[test]
fn test_pool_stats() {
    let mut pool = create_test_pool();

    let stats = pool.stats();
    assert_eq!(stats.total_connections, 2);
    assert_eq!(stats.min_size, 2);
    assert_eq!(stats.max_size, 10);

    let _conn = pool.checkout_step(&|| 0u32, 1);
    let stats = pool.stats();
    assert_eq!(stats.active_connections, 1);
    assert!((stats.active_connections as f64 / stats.max_size as f64) * 100.0 > 0.0);
}

#[test]
fn min_above_max_is_refused() {
    let config = PoolConfig { min_size: 3, max_size: 2, ..PoolConfig::default() };
    let err = ConnectionPool::new(&|| 0u32, config, 0).err().unwrap();
    assert_eq!(err, "min_size cannot be greater than max_size");
}

#[test]
fn stale_connections_are_replaced_on_checkout() {
    let second: u64 = 1_000_000_000;
    let config = PoolConfig {
        min_size: 2,
        max_size: 2,
        connection_timeout: 1,
        max_idle_time: 10,
        health_check_enabled: true,
    };
    let mut made = 0u32;
    let counter = std::cell::Cell::new(0u32);
    let make = || {
        counter.set(counter.get() + 1);
        counter.get()
    };
    let mut pool = ConnectionPool::new(&make, config, 0).unwrap();
    made += 2;
    assert_eq!(counter.get(), made);
    // Both connections have been idle 11 seconds: the first is closed and
    // a new one opened at the end; then the second, likewise; the first
    // opened of the new ones is handed out.
    let got = pool.checkout_step(&make, 11 * second);
    assert_eq!(got, Checkout::Ready(0));
    assert_eq!(counter.get(), 4);
    assert_eq!(*pool.connection(0).unwrap(), 3);
    assert_eq!(pool.size(), 2);
}

#[test]
fn a_new_connection_is_opened_below_the_maximum() {
    let config = PoolConfig { min_size: 1, max_size: 3, ..PoolConfig::default() };
    let mut pool = ConnectionPool::new(&|| 0u32, config, 0).unwrap();
    assert_eq!(pool.checkout_step(&|| 0u32, 1), Checkout::Ready(0));
    assert_eq!(pool.checkout_step(&|| 0u32, 1), Checkout::Ready(1));
    assert_eq!(pool.size(), 2);
    pool.checkin(0, 2);
    assert_eq!(pool.checkout_step(&|| 0u32, 3), Checkout::Ready(0));
    pool.checkin(7, 4);
    assert_eq!(pool.active_connections(), 2);
}

#[test]
fn cleanup_closes_idle_connections_down_to_the_minimum() {
    let second: u64 = 1_000_000_000;
    let config = PoolConfig { min_size: 1, max_size: 4, max_idle_time: 5, ..PoolConfig::default() };
    let mut pool = ConnectionPool::new(&|| 0u32, config, 0).unwrap();
    pool.checkout_step(&|| 0u32, 0);
    pool.checkout_step(&|| 0u32, 0);
    pool.checkout_step(&|| 0u32, 0);
    pool.checkin(1, 0);
    pool.checkin(2, 0);
    // Connection 0 is checked out; 1 and 2 have been idle 6 seconds.
    pool.cleanup_idle_connections(6 * second);
    assert_eq!(pool.size(), 1);
    assert_eq!(pool.active_connections(), 1);
    let mut fresh = ConnectionPool::new(&|| 0u32, config, 0).unwrap();
    fresh.cleanup_idle_connections(100 * second);
    assert_eq!(fresh.size(), 1);
}

#[test]
fn waiting_time_left() {
    let config = PoolConfig { connection_timeout: 2, ..PoolConfig::default() };
    assert_eq!(wait_budget(&config, 500_000_000), Ok(1_500_000_000));
    assert!(wait_budget(&config, 2_000_000_000).is_err());
}
