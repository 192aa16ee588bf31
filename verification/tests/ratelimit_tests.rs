use std::time::Duration;
use websocket_fabric::error::{Error, Result};
use websocket_fabric::ratelimit::{
    GlobalRateLimiter, RateLimitConfig, RateLimitType, RateLimiter, TokenBucket,
};

#[test]
fn test_rate_limit_config_default() {
    let config = RateLimitConfig::default();
    assert_eq!(config.messages_per_second, 100);
    assert_eq!(config.bytes_per_second, 1024 * 1024);
    assert_eq!(config.operations_per_second, 1000);
    assert_eq!(config.burst_size, 100);
}

#[test]
fn test_rate_limit_config_builder() {
    let config = RateLimitConfig::new()
        .with_messages_per_second(200)
        .with_bytes_per_second(2048 * 1024)
        .with_operations_per_second(2000)
        .with_burst_size(50);

    assert_eq!(config.messages_per_second, 200);
    assert_eq!(config.bytes_per_second, 2048 * 1024);
    assert_eq!(config.operations_per_second, 2000);
    assert_eq!(config.burst_size, 50);
}

#[test]
fn test_rate_limit_config_disabled() {
    let config = RateLimitConfig::disabled();
    assert_eq!(config.messages_per_second, u64::MAX);
    assert_eq!(config.bytes_per_second, u64::MAX);
    assert_eq!(config.operations_per_second, u64::MAX);
    assert_eq!(config.burst_size, u64::MAX);
}

#[test]
fn test_rate_limiter_try_acquire_within_limit() {
    let config = RateLimitConfig::new()
        .with_messages_per_second(10)
        .with_burst_size(10);

    let mut limiter = RateLimiter::new(config);

    // Should be able to acquire up to burst size
    for _ in 0..10 {
        assert!(limiter.try_acquire(RateLimitType::Message, 1).is_ok());
    }

    // Next acquisition should fail
    assert!(limiter.try_acquire(RateLimitType::Message, 1).is_err());
}

#[test]
fn test_rate_limiter_try_acquire_amount() {
    let config = RateLimitConfig::new()
        .with_messages_per_second(10)
        .with_burst_size(10);

    let mut limiter = RateLimiter::new(config);

    // Acquire 5 tokens at once
    assert!(limiter.try_acquire(RateLimitType::Message, 5).is_ok());

    // Should have 5 tokens left
    assert!(limiter.try_acquire(RateLimitType::Message, 5).is_ok());

    // Should be exhausted
    assert!(limiter.try_acquire(RateLimitType::Message, 1).is_err());
}

#[test]
fn test_rate_limiter_zero_amount() {
    let mut limiter = RateLimiter::default_config();

    // Zero amount should always succeed
    assert!(limiter.try_acquire(RateLimitType::Message, 0).is_ok());
    assert!(limiter.try_acquire(RateLimitType::Byte, 0).is_ok());
    assert!(limiter.try_acquire(RateLimitType::Operation, 0).is_ok());
}

#[test]
fn test_rate_limiter_status() {
    let config = RateLimitConfig::new()
        .with_messages_per_second(10)
        .with_burst_size(10);

    let mut limiter = RateLimiter::new(config);

    let status = limiter.status(RateLimitType::Message);
    assert_eq!(status.remaining, 10);
    assert_eq!(status.capacity, 10);
    assert_eq!(status.limit, 10);

    // Acquire some tokens
    assert!(limiter.try_acquire(RateLimitType::Message, 3).is_ok());

    let status = limiter.status(RateLimitType::Message);
    assert_eq!(status.remaining, 7);
}

#[test]
fn test_rate_limiter_reset() {
    let config = RateLimitConfig::new()
        .with_messages_per_second(10)
        .with_burst_size(10);

    let mut limiter = RateLimiter::new(config);

    // Exhaust tokens
    for _ in 0..10 {
        assert!(limiter.try_acquire(RateLimitType::Message, 1).is_ok());
    }
    assert!(limiter.try_acquire(RateLimitType::Message, 1).is_err());

    // Reset
    limiter.reset();

    // Should be able to acquire again
    assert!(limiter.try_acquire(RateLimitType::Message, 1).is_ok());
}

#[test]
fn test_rate_limiter_reset_type() {
    let mut limiter = RateLimiter::default_config();

    // Exhaust message tokens
    for _ in 0..100 {
        if limiter.try_acquire(RateLimitType::Message, 1).is_err() {
            break;
        }
    }

    // Reset only message type
    limiter.reset_type(RateLimitType::Message);

    // Should be able to acquire messages again
    assert!(limiter.try_acquire(RateLimitType::Message, 1).is_ok());
}

#[test]
fn test_rate_limiter_disabled() {
    let mut limiter = RateLimiter::disabled();

    // Should be able to acquire unlimited tokens
    for _ in 0..10000 {
        assert!(limiter.try_acquire(RateLimitType::Message, 1).is_ok());
    }

    assert!(!limiter.is_enabled());
}

#[test]
fn test_rate_limiter_multiple_types() {
    let config = RateLimitConfig::new()
        .with_messages_per_second(10)
        .with_bytes_per_second(1024)
        .with_operations_per_second(100)
        .with_burst_size(10);

    let mut limiter = RateLimiter::new(config);

    // Each type should have independent limits
    assert!(limiter.try_acquire(RateLimitType::Message, 10).is_ok());
    assert!(limiter.try_acquire(RateLimitType::Byte, 10).is_ok());
    assert!(limiter.try_acquire(RateLimitType::Operation, 10).is_ok());

    // Exhaust message limit (burst_size=10)
    assert!(limiter.try_acquire(RateLimitType::Message, 1).is_err());

    // Exhaust operation limit (burst_size=10)
    assert!(limiter.try_acquire(RateLimitType::Operation, 1).is_err());

    // Bytes should still work (capacity is max(10, 1024) = 1024)
    assert!(limiter.try_acquire(RateLimitType::Byte, 1).is_ok());
}

#[test]
fn test_rate_limiter_burst_size_smaller_than_limit() {
    let config = RateLimitConfig::new()
        .with_messages_per_second(100)
        .with_burst_size(10);

    let mut limiter = RateLimiter::new(config);

    let status = limiter.status(RateLimitType::Message);
    assert_eq!(status.capacity, 10); // Burst size is the capacity
    assert_eq!(status.limit, 100);
}

#[test]
fn test_rate_limiter_burst_size_larger_than_limit() {
    let config = RateLimitConfig::new()
        .with_messages_per_second(10)
        .with_burst_size(100);

    let mut limiter = RateLimiter::new(config);

    let status = limiter.status(RateLimitType::Message);
    assert_eq!(status.capacity, 100); // Burst size is the capacity
    assert_eq!(status.limit, 10);
}

#[test]
fn test_rate_limiter_is_enabled() {
    let mut limiter = RateLimiter::default_config();
    assert!(limiter.is_enabled());

    let mut limiter = RateLimiter::disabled();
    assert!(!limiter.is_enabled());
}

#[test]
fn test_rate_limiter_config() {
    let config = RateLimitConfig::new()
        .with_messages_per_second(50);

    let mut limiter = RateLimiter::new(config);
    assert_eq!(limiter.config().messages_per_second, 50);
}

#[test]
fn test_global_rate_limiter_connection_count() {
    let mut limiter = GlobalRateLimiter::default_config(10);

    assert_eq!(limiter.connection_count(), 0);

    assert!(limiter.add_connection().is_ok());
    assert_eq!(limiter.connection_count(), 1);

    assert!(limiter.add_connection().is_ok());
    assert_eq!(limiter.connection_count(), 2);

    limiter.remove_connection();
    assert_eq!(limiter.connection_count(), 1);
}

#[test]
fn test_global_rate_limiter_connection_limit() {
    let mut limiter = GlobalRateLimiter::default_config(2);

    assert!(limiter.add_connection().is_ok());
    assert!(limiter.add_connection().is_ok());

    // Third connection should fail
    assert!(limiter.add_connection().is_err());

    // Check error type
    match limiter.add_connection() {
        Err(Error::ConnectionLimitExceeded { current, limit }) => {
            assert_eq!(current, 3);
            assert_eq!(limit, 2);
        }
        _ => panic!("Expected ConnectionLimitExceeded error"),
    }
}

#[test]
fn test_global_rate_limiter_delegates_to_limiter() {
    let config = RateLimitConfig::new()
        .with_messages_per_second(10)
        .with_burst_size(10);

    let mut limiter = GlobalRateLimiter::new(config, 100);

    // Should delegate rate limiting
    for _ in 0..10 {
        assert!(limiter.try_acquire(RateLimitType::Message, 1).is_ok());
    }

    assert!(limiter.try_acquire(RateLimitType::Message, 1).is_err());
}

#[test]
fn test_global_rate_limiter_status() {
    let mut limiter = GlobalRateLimiter::default_config(100);

    let status = limiter.status(RateLimitType::Message);
    assert!(status.remaining > 0);
}

#[test]
fn test_global_rate_limiter_is_enabled() {
    let mut limiter = GlobalRateLimiter::default_config(100);
    assert!(limiter.is_enabled());
}

#[test]
fn test_rate_limit_type_all() {
    let types = RateLimitType::all();
    assert_eq!(types.len(), 3);
    assert!(types.contains(&RateLimitType::Message));
    assert!(types.contains(&RateLimitType::Byte));
    assert!(types.contains(&RateLimitType::Operation));
}

#[test]
fn test_token_bucket_time_until_full() {
    let mut bucket = TokenBucket::new(100, 10); // 100 capacity, 10 per second

    // Consume half
    assert!(bucket.try_consume(50));

    let time_until_full = bucket.time_until_full();
    assert!(time_until_full.as_secs() >= 4);
    assert!(time_until_full.as_secs() <= 6);
}

#[test]
fn test_token_bucket_reset() {
    let mut bucket = TokenBucket::new(10, 100);

    // Consume all
    assert!(bucket.try_consume(10));
    assert_eq!(bucket.available(), 0);

    // Reset
    bucket.reset();
    assert_eq!(bucket.available(), 10);
}

#[test]
fn test_rate_limit_status_clone() {
    let config = RateLimitConfig::new()
        .with_messages_per_second(10)
        .with_burst_size(10);

    let mut limiter = RateLimiter::new(config);

    let status1 = limiter.status(RateLimitType::Message);
    let status2 = status1.clone();

    assert_eq!(status1.remaining, status2.remaining);
    assert_eq!(status1.limit, status2.limit);
    assert_eq!(status1.capacity, status2.capacity);
}

#[test]
fn test_rate_limiter_default_trait() {
    let mut limiter1 = RateLimiter::default();
    let mut limiter2 = RateLimiter::default_config();

    // Both should have same configuration
    assert_eq!(limiter1.config().messages_per_second, limiter2.config().messages_per_second);
}

#[test]
fn test_rate_limit_error_display() {
    let result: Result<()> = Err(Error::RateLimitExceeded {
        rate_limit_type: RateLimitType::Message,
        retry_after: Duration::from_secs(5),
    });

    assert!(result.unwrap_err().to_string().contains("Rate limit"));
}

#[test]
fn test_byte_rate_limiting() {
    let config = RateLimitConfig::new()
        .with_bytes_per_second(1024)
        .with_burst_size(2048);

    let mut limiter = RateLimiter::new(config);

    // Should be able to send up to burst size
    assert!(limiter.try_acquire(RateLimitType::Byte, 2048).is_ok());

    // Should be exhausted
    assert!(limiter.try_acquire(RateLimitType::Byte, 1).is_err());

    // Status should show bytes
    let status = limiter.status(RateLimitType::Byte);
    assert_eq!(status.remaining, 0);
    assert_eq!(status.capacity, 2048);
}

#[test]
fn test_operation_rate_limiting() {
    let config = RateLimitConfig::new()
        .with_operations_per_second(1000)
        .with_burst_size(500);

    let mut limiter = RateLimiter::new(config);

    // Should be able to perform up to burst size operations
    for _ in 0..500 {
        assert!(limiter.try_acquire(RateLimitType::Operation, 1).is_ok());
    }

    // Should be exhausted
    assert!(limiter.try_acquire(RateLimitType::Operation, 1).is_err());
}

#[test]
fn test_token_bucket_refill() {
    let mut bucket = TokenBucket::new_at(10, 100, 0); // 10 capacity, 100 per second refill

    // Consume all tokens
    assert!(bucket.try_consume_at(10, 0));
    assert_eq!(bucket.available_at(0), 0);

    // Should not be able to consume more
    assert!(!bucket.try_consume_at(1, 0));

    // 20 ms later some tokens are back
    let available = bucket.available_at(20_000_000);
    assert!(available > 0, "Expected tokens to refill, got {}", available);
}

#[test]
fn refill_earns_tokens_at_the_rate_up_to_capacity() {
    let mut bucket = TokenBucket::new_at(10, 100, 0);
    assert!(bucket.try_consume_at(10, 0));
    // Without time passing nothing is earned.
    assert_eq!(bucket.available_at(0), 0);
    // 20 ms at 100 per second earn 2 tokens.
    assert_eq!(bucket.available_at(20_000_000), 2);
    // Ten seconds later the bucket is full, never above capacity.
    assert_eq!(bucket.available_at(10_000_000_000), 10);
}

#[test]
fn refused_request_takes_no_tokens() {
    let mut bucket = TokenBucket::new_at(10, 100, 0);
    assert!(bucket.try_consume_at(10, 0));
    // 10 ms at 100 per second earn 1 token: not enough for 5.
    assert!(!bucket.try_consume_at(5, 10_000_000));
    assert_eq!(bucket.available_at(10_000_000), 1);
}
