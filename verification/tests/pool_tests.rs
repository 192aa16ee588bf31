use std::time::{Duration, Instant};
use websocket_fabric::pool::{CleanupStats, PoolConfig, PoolLedger};

#[test]
fn test_pool_config_default() {
    let config = PoolConfig::default();
    assert_eq!(config.min_connections, 1);
    assert_eq!(config.max_connections, 10);
    assert_eq!(config.idle_timeout, Duration::from_secs(300));
}

#[test]
fn test_pool_config_builder() {
    let config = PoolConfig::new()
        .with_min_connections(2)
        .with_max_connections(20)
        .with_idle_timeout(Duration::from_secs(120));

    assert_eq!(config.min_connections, 2);
    assert_eq!(config.max_connections, 20);
    assert_eq!(config.idle_timeout, Duration::from_secs(120));
}

#[test]
fn test_pool_config_validation() {
    // Valid config
    let config = PoolConfig::default();
    assert!(config.validate().is_ok());

    // min_connections cannot be 0
    let config = PoolConfig {
        min_connections: 0,
        ..Default::default()
    };
    assert!(config.validate().is_err());

    // max_connections cannot be 0
    let config = PoolConfig {
        max_connections: 0,
        ..Default::default()
    };
    assert!(config.validate().is_err());

    // min cannot be greater than max
    let config = PoolConfig {
        min_connections: 10,
        max_connections: 5,
        ..Default::default()
    };
    assert!(config.validate().is_err());
}

#[test]
fn test_pooled_connection_idle_check() {
    let _url = "ws://localhost:8080".to_string();
    let timeout = Duration::from_secs(60);

    // Simulate idle check
    let last_used = Instant::now();
    let is_idle = last_used.elapsed() > timeout;

    assert!(!is_idle);
}

#[test]
fn test_cleanup_stats() {
    let stats = CleanupStats {
        connections_removed: 5,
        servers_cleaned: 2,
    };

    assert_eq!(stats.connections_removed, 5);
    assert_eq!(stats.servers_cleaned, 2);
}

/// A ledger with at most 5 connections per server.
fn create_test_pool() -> PoolLedger {
    let config = PoolConfig {
        min_connections: 1,
        max_connections: 5,
        idle_timeout: Duration::from_secs(60),
        health_check_interval: Duration::from_secs(10),
        acquire_timeout: Duration::from_secs(1),
        enable_health_check: true,
    };
    PoolLedger::new(config).unwrap()
}

#[test]
fn test_pool_with_defaults() {
    let pool = PoolLedger::with_defaults();
    assert!(pool.is_ok());
}

#[test]
fn test_pool_stats_empty() {
    let pool = create_test_pool();
    let stats = pool.stats();

    assert_eq!(stats.server_count, 0);
    assert_eq!(stats.total_connections, 0);
    assert_eq!(stats.available_connections, 0);
    assert_eq!(stats.in_use_connections, 0);
}

#[test]
fn test_server_stats_nonexistent() {
    let pool = create_test_pool();
    let stats = pool.server_stats("ws://nonexistent");

    assert!(stats.is_none());
}
