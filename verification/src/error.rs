//! Error types
use vstd::prelude::*;
use crate::text::{decimal, push_decimal};
use crate::ratelimit::RateLimitType;
use crate::time::{duration_as_millis, spec_duration_millis};

verus! {

#[verifier::external_type_specification]
#[verifier::external_body]
pub struct ExIoError(std::io::Error);

/// Errors that can occur in WebSocket operations
#[derive(Debug)]
pub enum Error {
    /// Connection failed
    ConnectionFailed(String),
    /// Connection was closed
    ConnectionClosed,
    /// Reconnection timeout
    ReconnectTimeout,
    /// Invalid WebSocket frame
    InvalidFrame(String),
    /// Message too large
    MessageTooLarge { size: usize, max: usize },
    /// UTF-8 validation error
    Utf8Error(std::string::FromUtf8Error),
    /// Protocol violation
    ProtocolViolation(String),
    /// Handshake failed
    HandshakeFailed(String),
    /// I/O error
    Io(std::io::Error),
    /// WebSocket error
    WebSocket(String),
    /// URL parse error
    InvalidUrl(String),
    /// Buffer full
    BufferFull,
    /// Backpressure timeout
    BackpressureTimeout,
    /// Authentication failed
    AuthenticationFailed(String),
    /// TLS error
    Tls(String),
    /// Operation not supported
    NotSupported(String),
    /// Invalid state
    InvalidState(String),
    /// Timeout
    Timeout,
    /// The server selected a subprotocol that the client did not offer
    SubprotocolNegotiationFailed(String),
    /// A subprotocol name that is empty or holds characters that are not allowed
    InvalidSubprotocol(String),
    /// A rate limit was exceeded
    RateLimitExceeded { rate_limit_type: RateLimitType, retry_after: std::time::Duration },
    /// The connection limit was exceeded
    ConnectionLimitExceeded { current: u64, limit: u64 },
}

/// Result type for WebSocket operations
pub type Result<T> = std::result::Result<T, Error>;

/// Builds the message `prefix` followed by `detail`.
fn text_with_detail(prefix: &str, detail: &str) -> (r: String)
    ensures
        r@ == prefix@ + detail@,
{
    let mut s = String::from_str(prefix);
    s.append(detail);
    s
}

/// The name of a rate limit type as it appears in messages.
pub open spec fn rate_limit_type_name(t: RateLimitType) -> Seq<char> {
    match t {
        RateLimitType::Message => "message"@,
        RateLimitType::Byte => "byte"@,
        RateLimitType::Operation => "operation"@,
    }
}

impl Error {
    /// Create a connection failed error
    pub fn connection_failed(msg: &str) -> (e: Self)
        ensures
            e matches Error::ConnectionFailed(m) && m@ == msg@,
    {
        Error::ConnectionFailed(msg.to_owned())
    }

    /// Create an invalid frame error
    pub fn invalid_frame(msg: &str) -> (e: Self)
        ensures
            e matches Error::InvalidFrame(m) && m@ == msg@,
    {
        Error::InvalidFrame(msg.to_owned())
    }

    /// Create a protocol violation error
    pub fn protocol_violation(msg: &str) -> (e: Self)
        ensures
            e matches Error::ProtocolViolation(m) && m@ == msg@,
    {
        Error::ProtocolViolation(msg.to_owned())
    }

    /// Create a handshake failed error
    pub fn handshake_failed(msg: &str) -> (e: Self)
        ensures
            e matches Error::HandshakeFailed(m) && m@ == msg@,
    {
        Error::HandshakeFailed(msg.to_owned())
    }

    /// Create an invalid URL error
    pub fn invalid_url(msg: &str) -> (e: Self)
        ensures
            e matches Error::InvalidUrl(m) && m@ == msg@,
    {
        Error::InvalidUrl(msg.to_owned())
    }

    /// Create an authentication failed error
    pub fn authentication_failed(msg: &str) -> (e: Self)
        ensures
            e matches Error::AuthenticationFailed(m) && m@ == msg@,
    {
        Error::AuthenticationFailed(msg.to_owned())
    }

    /// Create a TLS error
    pub fn tls(msg: &str) -> (e: Self)
        ensures
            e matches Error::Tls(m) && m@ == msg@,
    {
        Error::Tls(msg.to_owned())
    }

    /// Create a not supported error
    pub fn not_supported(msg: &str) -> (e: Self)
        ensures
            e matches Error::NotSupported(m) && m@ == msg@,
    {
        Error::NotSupported(msg.to_owned())
    }

    /// Create an invalid state error
    pub fn invalid_state(msg: &str) -> (e: Self)
        ensures
            e matches Error::InvalidState(m) && m@ == msg@,
    {
        Error::InvalidState(msg.to_owned())
    }

    /// Whether an error of this kind may succeed when the operation is retried
    pub open spec fn spec_is_retryable(&self) -> bool {
        self is Io || self is ConnectionClosed || self is Timeout || self is Tls
    }

    /// Whether an error of this kind should trigger a reconnection
    pub open spec fn spec_should_reconnect(&self) -> bool {
        self is Io || self is ConnectionClosed || self is Timeout
    }

    /// Check if error is retryable
    pub fn is_retryable(&self) -> (r: bool)
        ensures
            r == self.spec_is_retryable(),
    {
        match self {
            Error::Io(_) | Error::ConnectionClosed | Error::Timeout | Error::Tls(_) => true,
            _ => false,
        }
    }

    /// Check if error should trigger reconnection
    pub fn should_reconnect(&self) -> (r: bool)
        ensures
            r == self.spec_should_reconnect(),
    {
        match self {
            Error::Io(_) | Error::ConnectionClosed | Error::Timeout => true,
            _ => false,
        }
    }

    /// The message of an error whose text is made of the library's own values
    /// (every kind but `Io` and `Utf8Error`, whose detail std formats).
    pub open spec fn spec_message(&self) -> Seq<char> {
        match self {
            Error::ConnectionFailed(m) => "Connection failed: "@ + m@,
            Error::ConnectionClosed => "Connection closed"@,
            Error::ReconnectTimeout => "Reconnection timeout"@,
            Error::InvalidFrame(m) => "Invalid frame: "@ + m@,
            Error::MessageTooLarge { size, max } => "Message too large: "@ + decimal(*size as nat)
                + " bytes (max "@ + decimal(*max as nat) + " bytes)"@,
            Error::Utf8Error(_) => "UTF-8 error: "@,
            Error::ProtocolViolation(m) => "Protocol violation: "@ + m@,
            Error::HandshakeFailed(m) => "Handshake failed: "@ + m@,
            Error::Io(_) => "I/O error: "@,
            Error::WebSocket(m) => "WebSocket error: "@ + m@,
            Error::InvalidUrl(m) => "Invalid URL: "@ + m@,
            Error::BufferFull => "Buffer full"@,
            Error::BackpressureTimeout => "Backpressure timeout"@,
            Error::AuthenticationFailed(m) => "Authentication failed: "@ + m@,
            Error::Tls(m) => "TLS error: "@ + m@,
            Error::NotSupported(m) => "Operation not supported: "@ + m@,
            Error::InvalidState(m) => "Invalid state: "@ + m@,
            Error::Timeout => "Operation timed out"@,
            Error::SubprotocolNegotiationFailed(m) => "Subprotocol negotiation failed: "@ + m@,
            Error::InvalidSubprotocol(m) => "Invalid subprotocol: "@ + m@,
            Error::RateLimitExceeded { rate_limit_type, retry_after } => "Rate limit exceeded for "@
                + rate_limit_type_name(*rate_limit_type) + " (retry after "@ + decimal(
                spec_duration_millis(*retry_after),
            ) + " ms)"@,
            Error::ConnectionLimitExceeded { current, limit } => "Connection limit exceeded: "@
                + decimal(*current as nat) + " connections (limit "@ + decimal(*limit as nat)
                + ")"@,
        }
    }

    /// The human-readable message of this error.
    ///
    /// For `Io` and `Utf8Error` the message is `spec_message` followed by
    /// the text that std gives the wrapped error; for every other kind it is
    /// exactly `spec_message`.
    pub fn to_string(&self) -> (r: String)
        ensures
            self is Io || self is Utf8Error ==> r@.len() >= self.spec_message().len()
                && r@.subrange(0, self.spec_message().len() as int) == self.spec_message(),
            !(self is Io || self is Utf8Error) ==> r@ == self.spec_message(),
    {
        match self {
            Error::ConnectionFailed(m) => text_with_detail("Connection failed: ", m.as_str()),
            Error::ConnectionClosed => String::from_str("Connection closed"),
            Error::ReconnectTimeout => String::from_str("Reconnection timeout"),
            Error::InvalidFrame(m) => text_with_detail("Invalid frame: ", m.as_str()),
            Error::MessageTooLarge { size, max } => {
                let mut s = String::from_str("Message too large: ");
                push_decimal(&mut s, *size as u128);
                s.append(" bytes (max ");
                push_decimal(&mut s, *max as u128);
                s.append(" bytes)");
                s
            },
            Error::Utf8Error(e) => {
                let detail = e.to_string();
                let r = text_with_detail("UTF-8 error: ", detail.as_str());
                assert(r@.subrange(0, "UTF-8 error: "@.len() as int) =~= "UTF-8 error: "@);
                r
            },
            Error::ProtocolViolation(m) => text_with_detail("Protocol violation: ", m.as_str()),
            Error::HandshakeFailed(m) => text_with_detail("Handshake failed: ", m.as_str()),
            Error::Io(e) => {
                let detail = e.to_string();
                let r = text_with_detail("I/O error: ", detail.as_str());
                assert(r@.subrange(0, "I/O error: "@.len() as int) =~= "I/O error: "@);
                r
            },
            Error::WebSocket(m) => text_with_detail("WebSocket error: ", m.as_str()),
            Error::InvalidUrl(m) => text_with_detail("Invalid URL: ", m.as_str()),
            Error::BufferFull => String::from_str("Buffer full"),
            Error::BackpressureTimeout => String::from_str("Backpressure timeout"),
            Error::AuthenticationFailed(m) => text_with_detail("Authentication failed: ", m.as_str()),
            Error::Tls(m) => text_with_detail("TLS error: ", m.as_str()),
            Error::NotSupported(m) => text_with_detail("Operation not supported: ", m.as_str()),
            Error::InvalidState(m) => text_with_detail("Invalid state: ", m.as_str()),
            Error::Timeout => String::from_str("Operation timed out"),
            Error::SubprotocolNegotiationFailed(m) => text_with_detail(
                "Subprotocol negotiation failed: ",
                m.as_str(),
            ),
            Error::InvalidSubprotocol(m) => text_with_detail("Invalid subprotocol: ", m.as_str()),
            Error::RateLimitExceeded { rate_limit_type, retry_after } => {
                let mut s = String::from_str("Rate limit exceeded for ");
                match rate_limit_type {
                    RateLimitType::Message => s.append("message"),
                    RateLimitType::Byte => s.append("byte"),
                    RateLimitType::Operation => s.append("operation"),
                }
                s.append(" (retry after ");
                let ms = duration_as_millis(retry_after);
                push_decimal(&mut s, ms);
                s.append(" ms)");
                s
            },
            Error::ConnectionLimitExceeded { current, limit } => {
                let mut s = String::from_str("Connection limit exceeded: ");
                push_decimal(&mut s, *current as u128);
                s.append(" connections (limit ");
                push_decimal(&mut s, *limit as u128);
                s.append(")");
                s
            },
        }
    }
}

} // verus!
