use std::io;
use std::time::Duration;
use websocket_fabric::ratelimit::RateLimitType;
use websocket_fabric::error::Error;

#[test]
fn test_error_display() {
    let err = Error::connection_failed("test");
    assert!(err.to_string().contains("Connection failed"));

    let io_err = io::Error::new(io::ErrorKind::NotFound, "test");
    let err = Error::Io(io_err);
    assert!(err.to_string().contains("I/O error"));
}

#[test]
fn test_is_retryable() {
    let io_err = io::Error::new(io::ErrorKind::ConnectionRefused, "test");
    let err = Error::Io(io_err);
    assert!(err.is_retryable());

    let err = Error::invalid_frame("test");
    assert!(!err.is_retryable());
}

#[test]
fn test_should_reconnect() {
    let err = Error::ConnectionClosed;
    assert!(err.should_reconnect());

    let err = Error::InvalidFrame("test".to_string());
    assert!(!err.should_reconnect());
}

#[test]
fn test_error_convenience_methods() {
    let err = Error::handshake_failed("invalid key");
    assert!(matches!(err, Error::HandshakeFailed(_)));

    let err = Error::invalid_url("missing scheme");
    assert!(matches!(err, Error::InvalidUrl(_)));

    let err = Error::authentication_failed("invalid token");
    assert!(matches!(err, Error::AuthenticationFailed(_)));
}

#[test]
fn error_messages_of_limits() {
    let err = Error::RateLimitExceeded {
        rate_limit_type: RateLimitType::Byte,
        retry_after: Duration::from_millis(250),
    };
    assert_eq!(err.to_string(), "Rate limit exceeded for byte (retry after 250 ms)");
    let err = Error::ConnectionLimitExceeded { current: 10, limit: 10 };
    assert_eq!(err.to_string(), "Connection limit exceeded: 10 connections (limit 10)");
    let err = Error::MessageTooLarge { size: 2048, max: 1024 };
    assert_eq!(err.to_string(), "Message too large: 2048 bytes (max 1024 bytes)");
    assert_eq!(Error::Timeout.to_string(), "Operation timed out");
}
