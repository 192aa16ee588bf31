//! Configuration structures for the WebSocket server and the heartbeat
use vstd::prelude::*;
use std::time::Duration;
use crate::text::TextArg;
use crate::time::duration_nanos;
use crate::{DEFAULT_BUFFER_SIZE, DEFAULT_MAX_MESSAGE_SIZE, DEFAULT_PING_INTERVAL, DEFAULT_PING_TIMEOUT};

verus! {

/// Server configuration
#[derive(Debug, Clone)]
pub struct ServerConfig {
    /// Address to bind to
    pub bind_address: String,
    /// Maximum number of concurrent connections
    pub max_connections: usize,
    /// Maximum message size
    pub max_message_size: usize,
    /// Ping interval
    pub ping_interval: Duration,
    /// Ping timeout
    pub ping_timeout: Duration,
    /// Buffer size for message channels
    pub buffer_size: usize,
}

impl ServerConfig {
    /// Create a new server configuration: at most 10000 connections,
    /// messages of at most 10MB, pings every 30 seconds answered within 10,
    /// channels of 1000 messages.
    pub fn new(bind_address: impl TextArg) -> (r: Self)
        ensures
            r.bind_address@ == bind_address.text_view(),
            r.max_connections == 10_000,
            r.max_message_size == DEFAULT_MAX_MESSAGE_SIZE,
            duration_nanos(r.ping_interval) == DEFAULT_PING_INTERVAL * 1_000_000_000,
            duration_nanos(r.ping_timeout) == DEFAULT_PING_TIMEOUT * 1_000_000_000,
            r.buffer_size == DEFAULT_BUFFER_SIZE,
    {
        ServerConfig {
            bind_address: bind_address.as_text().to_owned(),
            max_connections: 10_000,
            max_message_size: DEFAULT_MAX_MESSAGE_SIZE,
            ping_interval: Duration::from_secs(DEFAULT_PING_INTERVAL),
            ping_timeout: Duration::from_secs(DEFAULT_PING_TIMEOUT),
            buffer_size: DEFAULT_BUFFER_SIZE,
        }
    }

    /// Set maximum connections
    pub fn with_max_connections(self, max: usize) -> (r: Self)
        ensures
            r == (ServerConfig { max_connections: max, ..self }),
    {
        let mut c = self;
        c.max_connections = max;
        c
    }

    /// Set maximum message size
    pub fn with_max_message_size(self, size: usize) -> (r: Self)
        ensures
            r == (ServerConfig { max_message_size: size, ..self }),
    {
        let mut c = self;
        c.max_message_size = size;
        c
    }

    /// Set ping interval
    pub fn with_ping_interval(self, interval: Duration) -> (r: Self)
        ensures
            r == (ServerConfig { ping_interval: interval, ..self }),
    {
        let mut c = self;
        c.ping_interval = interval;
        c
    }

    /// Set ping timeout
    pub fn with_ping_timeout(self, timeout: Duration) -> (r: Self)
        ensures
            r == (ServerConfig { ping_timeout: timeout, ..self }),
    {
        let mut c = self;
        c.ping_timeout = timeout;
        c
    }

    /// Set buffer size
    pub fn with_buffer_size(self, size: usize) -> (r: Self)
        ensures
            r == (ServerConfig { buffer_size: size, ..self }),
    {
        let mut c = self;
        c.buffer_size = size;
        c
    }
}

/// Heartbeat configuration
#[derive(Debug, Clone)]
pub struct HeartbeatConfig {
    /// Enable heartbeat/ping-pong
    pub enabled: bool,
    /// Ping interval
    pub ping_interval: Duration,
    /// Ping timeout (time to wait for pong)
    pub ping_timeout: Duration,
}

impl Default for HeartbeatConfig {
    fn default() -> (r: Self)
        ensures
            r.enabled,
            duration_nanos(r.ping_interval) == DEFAULT_PING_INTERVAL * 1_000_000_000,
            duration_nanos(r.ping_timeout) == DEFAULT_PING_TIMEOUT * 1_000_000_000,
    {
        HeartbeatConfig {
            enabled: true,
            ping_interval: Duration::from_secs(DEFAULT_PING_INTERVAL),
            ping_timeout: Duration::from_secs(DEFAULT_PING_TIMEOUT),
        }
    }
}

impl HeartbeatConfig {
    /// Create a new heartbeat configuration: enabled, pings every 30
    /// seconds, answered within 10.
    pub fn new() -> (r: Self)
        ensures
            r.enabled,
            duration_nanos(r.ping_interval) == DEFAULT_PING_INTERVAL * 1_000_000_000,
            duration_nanos(r.ping_timeout) == DEFAULT_PING_TIMEOUT * 1_000_000_000,
    {
        Self::default()
    }

    /// The default configuration with the heartbeat disabled
    pub fn disabled() -> (r: Self)
        ensures
            !r.enabled,
            duration_nanos(r.ping_interval) == DEFAULT_PING_INTERVAL * 1_000_000_000,
            duration_nanos(r.ping_timeout) == DEFAULT_PING_TIMEOUT * 1_000_000_000,
    {
        let mut c = Self::default();
        c.enabled = false;
        c
    }

    /// Set ping interval
    pub fn with_ping_interval(self, interval: Duration) -> (r: Self)
        ensures
            r == (HeartbeatConfig { ping_interval: interval, ..self }),
    {
        let mut c = self;
        c.ping_interval = interval;
        c
    }

    /// Set ping timeout
    pub fn with_ping_timeout(self, timeout: Duration) -> (r: Self)
        ensures
            r == (HeartbeatConfig { ping_timeout: timeout, ..self }),
    {
        let mut c = self;
        c.ping_timeout = timeout;
        c
    }
}

} // verus!
