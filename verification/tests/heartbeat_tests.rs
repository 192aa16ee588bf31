use websocket_fabric::config::HeartbeatConfig;
use websocket_fabric::error::Error;
use websocket_fabric::heartbeat::HeartbeatManager;

#[test]
fn test_heartbeat_disabled() {
    let config = HeartbeatConfig::disabled();
    let mut manager = HeartbeatManager::new(config);

    assert!(!manager.is_enabled());
    assert!(manager.is_alive()); // Always alive when disabled
}

#[test]
fn test_heartbeat_ping() {
    let config = HeartbeatConfig::new();
    let mut manager = HeartbeatManager::new(config);

    let ping = manager.ping();
    assert!(ping.is_ping());
    assert_eq!(manager.ping_count(), 1);
}

#[test]
fn test_heartbeat_handle_pong() {
    let config = HeartbeatConfig::new();
    let mut manager = HeartbeatManager::new(config);

    let ping = manager.ping();
    let payload = ping.payload();

    manager.handle_pong(payload).unwrap();
    assert_eq!(manager.pong_count(), 1);
    assert!(manager.is_alive());
}

#[test]
fn test_heartbeat_missed_pings() {
    let config = HeartbeatConfig::new();
    let mut manager = HeartbeatManager::new(config);

    // Send a ping (ping_count becomes 1, payload was 0)
    manager.ping();

    // Handle wrong pong (different payload - use 255 instead of 0)
    let wrong_payload = [255u8; 8];
    manager.handle_pong(&wrong_payload).unwrap();
    assert_eq!(manager.missed_pings(), 1);

    // Handle more wrong pongs
    manager.handle_pong(&wrong_payload).unwrap();
    assert_eq!(manager.missed_pings(), 2);

    manager.handle_pong(&wrong_payload).unwrap();
    assert_eq!(manager.missed_pings(), 3);

    // Fourth one should trigger timeout
    let result = manager.handle_pong(&wrong_payload);
    assert!(matches!(result, Err(Error::Timeout)));
}

#[test]
fn test_heartbeat_is_alive() {
    let config = HeartbeatConfig::new();
    let mut manager = HeartbeatManager::new(config);

    // Initially alive (no pings sent yet)
    assert!(manager.is_alive());

    // Send ping
    let ping = manager.ping();

    // Still alive (within timeout)
    assert!(manager.is_alive());

    // Handle pong
    manager.handle_pong(ping.payload()).unwrap();
    assert!(manager.is_alive());

    // Check pong count
    assert_eq!(manager.pong_count(), 1);
}

#[test]
fn test_heartbeat_handle_server_ping() {
    let config = HeartbeatConfig::new();
    let mut manager = HeartbeatManager::new(config);

    let ping_payload = b"server ping";
    let pong = manager.handle_ping(ping_payload);

    assert!(pong.is_pong());
    assert_eq!(pong.as_bytes(), ping_payload);
}

#[test]
fn test_heartbeat_reset() {
    let config = HeartbeatConfig::new();
    let mut manager = HeartbeatManager::new(config);

    manager.ping();
    manager.ping();
    assert_eq!(manager.ping_count(), 2);

    manager.reset();
    assert_eq!(manager.ping_count(), 2); // reset doesn't clear counters

    // But clears last ping/pong
    assert!(manager.time_since_last_pong().is_none());
}

#[test]
fn ping_payload_is_the_big_endian_count() {
    let mut manager = HeartbeatManager::new(HeartbeatConfig::new());
    let first = manager.ping();
    let second = manager.ping();
    assert_eq!(first.payload().to_vec(), vec![0u8; 8]);
    assert_eq!(second.payload().to_vec(), vec![0u8, 0, 0, 0, 0, 0, 0, 1]);
}

#[test]
fn stale_pong_is_a_missed_ping_and_last_pong_clears_it() {
    let mut manager = HeartbeatManager::new(HeartbeatConfig::new());
    let first = manager.ping().payload().to_vec();
    let second = manager.ping().payload().to_vec();

    // The answer to the older ping does not match the last one.
    manager.handle_pong(&first).unwrap();
    assert_eq!(manager.missed_pings(), 1);
    assert_eq!(manager.pong_count(), 0);

    // The answer to the last ping is counted and clears the missed pings.
    manager.handle_pong(&second).unwrap();
    assert_eq!(manager.missed_pings(), 0);
    assert_eq!(manager.pong_count(), 1);
}
