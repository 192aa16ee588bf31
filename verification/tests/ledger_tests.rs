use std::time::Duration;
use websocket_fabric::error::Error;
use websocket_fabric::pool::{AcquireStep, PoolConfig, PoolLedger};

fn small_ledger(max: usize) -> PoolLedger {
    let config = PoolConfig::new().with_max_connections(max).with_idle_timeout(Duration::from_secs(60));
    PoolLedger::new(config).unwrap()
}

#[test]
fn test_ledger_first_acquire_creates() {
    let mut ledger = small_ledger(2);
    assert!(matches!(ledger.acquire_step("ws://a", 0), AcquireStep::Create));
    let id = ledger.register_new("ws://a", 0);
    assert_eq!(id.len(), 36);
    let stats = ledger.server_stats("ws://a").unwrap();
    assert_eq!(stats.in_use, 1);
    assert_eq!(stats.available, 0);
    assert_eq!(stats.total_created, 1);
    assert_eq!(stats.total_acquired, 1);
}

#[test]
fn test_ledger_release_then_reuse() {
    let mut ledger = small_ledger(2);
    let id = ledger.register_new("ws://a", 0);
    ledger.release("ws://a", &id, 5);
    let stats = ledger.server_stats("ws://a").unwrap();
    assert_eq!(stats.available, 1);
    assert_eq!(stats.in_use, 0);
    assert_eq!(stats.total_released, 1);
    match ledger.acquire_step("ws://a", 10) {
        AcquireStep::Reuse(reused) => assert_eq!(reused, id),
        other => panic!("expected reuse, got {:?}", other),
    }
    assert_eq!(ledger.server_stats("ws://a").unwrap().total_acquired, 2);
}

#[test]
fn test_ledger_unhealthy_connection_discarded() {
    let mut ledger = small_ledger(1);
    let id = ledger.register_new("ws://a", 0);
    ledger.release("ws://a", &id, 1);
    ledger.set_health("ws://a", &id, false);
    assert!(matches!(ledger.acquire_step("ws://a", 2), AcquireStep::Create));
    let stats = ledger.server_stats("ws://a").unwrap();
    assert_eq!(stats.total, 0);
    assert_eq!(stats.total_created, 0);
}

#[test]
fn test_ledger_full_pool_waits() {
    let mut ledger = small_ledger(1);
    let _id = ledger.register_new("ws://a", 0);
    assert!(matches!(ledger.acquire_step("ws://a", 1), AcquireStep::Wait));
    assert_eq!(ledger.retry_step("ws://a", 2), None);
}

#[test]
fn test_ledger_unhealthy_release_dropped() {
    let mut ledger = small_ledger(2);
    let id = ledger.register_new("ws://a", 0);
    ledger.set_health("ws://a", &id, false);
    ledger.release("ws://a", &id, 1);
    let stats = ledger.server_stats("ws://a").unwrap();
    assert_eq!(stats.total, 0);
    assert_eq!(stats.total_created, 0);
    assert_eq!(stats.total_released, 1);
}

#[test]
fn test_ledger_close() {
    let mut ledger = small_ledger(2);
    let a = ledger.register_new("ws://a", 0);
    let b = ledger.register_new("ws://a", 0);
    ledger.release("ws://a", &b, 1);
    ledger.close("ws://a", &a);
    ledger.close("ws://a", &b);
    let stats = ledger.server_stats("ws://a").unwrap();
    assert_eq!(stats.total, 0);
    assert_eq!(stats.total_created, 0);
}

#[test]
fn test_ledger_cleanup_idle() {
    let mut ledger = small_ledger(3);
    let a = ledger.register_new("ws://a", 0);
    let b = ledger.register_new("ws://b", 0);
    ledger.release("ws://a", &a, 0);
    ledger.release("ws://b", &b, 50_000_000_000);
    // 70 seconds: a has been idle for more than the 60 second timeout, b not
    let stats = ledger.cleanup_at(70_000_000_000);
    assert_eq!(stats.connections_removed, 1);
    assert_eq!(stats.servers_cleaned, 1);
    assert_eq!(ledger.server_stats("ws://a").unwrap().available, 0);
    assert_eq!(ledger.server_stats("ws://b").unwrap().available, 1);
}

#[test]
fn test_ledger_stats_and_close_all() {
    let mut ledger = small_ledger(3);
    let a = ledger.register_new("ws://a", 0);
    let _b = ledger.register_new("ws://b", 0);
    ledger.release("ws://a", &a, 1);
    let stats = ledger.stats();
    assert_eq!(stats.server_count, 2);
    assert_eq!(stats.total_connections, 2);
    assert_eq!(stats.available_connections, 1);
    assert_eq!(stats.in_use_connections, 1);
    assert_eq!(stats.total_created, 2);
    let ids = ledger.close_all();
    assert_eq!(ids.len(), 2);
    assert_eq!(ledger.stats().server_count, 0);
}

#[test]
fn test_ledger_acquire_expired() {
    let ledger = small_ledger(1);
    assert!(!ledger.acquire_expired(0, 4_999_999_999));
    assert!(ledger.acquire_expired(0, 5_000_000_000));
}

#[test]
fn test_pool_config_validation_messages() {
    let config = PoolConfig { min_connections: 3, max_connections: 2, ..Default::default() };
    match config.validate() {
        Err(Error::InvalidState(m)) => {
            assert_eq!(m, "min_connections cannot be greater than max_connections")
        }
        other => panic!("unexpected {:?}", other),
    }
    match PoolLedger::new(PoolConfig { min_connections: 0, ..Default::default() }) {
        Err(Error::InvalidState(m)) => assert_eq!(m, "min_connections must be greater than 0"),
        _ => panic!("expected an error"),
    }
}

#[test]
fn test_ledger_holds_tracks_connections() {
    let mut ledger = small_ledger(2);
    assert!(!ledger.holds("ws://a", "nope"));
    let id = ledger.register_new("ws://a", 0);
    assert!(ledger.holds("ws://a", &id));
    assert!(!ledger.holds("ws://b", &id));
    ledger.release("ws://a", &id, 5);
    assert!(ledger.holds("ws://a", &id));
    // Idle for longer than the 60 s timeout: evicted, no longer held.
    ledger.cleanup_at(5 + 61_000_000_000);
    assert!(!ledger.holds("ws://a", &id));
}
