//! websocket_fabric: the protocol logic of a WebSocket library (subprotocol
//! negotiation, handshake headers, fragmentation and reassembly, per-message
//! compression parameters, rate limiting, connection-pool bookkeeping),
//! stated as contracts and proved with Verus.
use vstd::prelude::*;

pub mod text;
pub mod time;
pub mod error;
pub mod ratelimit;
pub mod subprotocol;
pub mod assoc;
pub mod headers;
pub mod http_map;
pub mod message;
pub mod fragmentation;
pub mod compression;
pub mod config;
pub mod backpressure;
pub mod heartbeat;
pub mod metrics;
pub mod pool;
pub mod session;

pub use error::{Error, Result};

verus! {

/// Default maximum message size (10MB)
pub const DEFAULT_MAX_MESSAGE_SIZE: usize = 10 * 1024 * 1024;

/// Default ping interval (30 seconds)
pub const DEFAULT_PING_INTERVAL: u64 = 30;

/// Default ping timeout (10 seconds)
pub const DEFAULT_PING_TIMEOUT: u64 = 10;

/// Default buffer size for message channels (1000 messages)
pub const DEFAULT_BUFFER_SIZE: usize = 1000;

/// Default connection timeout (5 seconds)
pub const DEFAULT_CONNECTION_TIMEOUT: u64 = 5;

/// Library version
pub const VERSION: &'static str = "0.1.0";

} // verus!
