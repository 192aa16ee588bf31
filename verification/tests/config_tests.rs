use websocket_fabric::config::{HeartbeatConfig, ServerConfig};

#[test]
fn config_test_server_config_builder() {
    let config = ServerConfig::new("0.0.0.0:8080")
        .with_max_connections(5000)
        .with_buffer_size(2000);

    assert_eq!(config.bind_address, "0.0.0.0:8080");
    assert_eq!(config.max_connections, 5000);
    assert_eq!(config.buffer_size, 2000);
}

#[test]
fn test_heartbeat_config_defaults() {
    let config = HeartbeatConfig::default();
    assert!(config.enabled);
    assert_eq!(config.ping_interval.as_secs(), 30);
    assert_eq!(config.ping_timeout.as_secs(), 10);
}

#[test]
fn test_server_config() {
    let config = ServerConfig::new("0.0.0.0:8080")
        .with_max_connections(5000)
        .with_max_message_size(2048)
        .with_buffer_size(2000);

    assert_eq!(config.bind_address, "0.0.0.0:8080");
    assert_eq!(config.max_connections, 5000);
    assert_eq!(config.max_message_size, 2048);
    assert_eq!(config.buffer_size, 2000);
}
