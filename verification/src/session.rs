//! The decisions of a connection's message loop
//!
//! The client and the server each run a loop per connection that writes
//! queued messages to the socket and reads what the peer sends. The
//! reading, writing and waiting stay with the caller; what is written for a
//! message, and what to do with each message read, is decided here.
use vstd::prelude::*;
use bytes::Bytes;
use crate::error::{Error, Result};
use crate::heartbeat::{HeartbeatManager, pong_matches};
use crate::message::{Message, MessageType, bytes_view};
use crate::metrics::{MetricsCollector, ConnectionMetrics};
use crate::config::ServerConfig;

verus! {

/// A message as the WebSocket transport carries it
#[derive(Debug)]
pub enum WireMessage {
    /// A text message
    Text(String),
    /// A binary message
    Binary(Bytes),
    /// A ping with its payload
    Ping(Bytes),
    /// A pong with its payload
    Pong(Bytes),
    /// A close message
    Close,
    /// A raw frame
    Frame,
}

/// What the loop does after reading a message
#[derive(Debug)]
pub enum Reaction {
    /// Write this message back to the peer
    Reply(WireMessage),
    /// A data message of this many bytes was received
    Received(usize),
    /// Nothing more to do for this message
    Continue,
    /// The peer closed the connection: leave the loop
    Stop,
}

/// The transport message written for a message: text as text (it must be
/// valid UTF-8), binary, ping and pong with their payloads, a close without
/// payload, and a continuation as binary.
pub fn outgoing(msg: &Message) -> (r: Result<WireMessage>)
    ensures
        msg.msg_type == MessageType::Text ==> (r is Ok <==> vstd::utf8::valid_utf8(msg.data())),
        msg.msg_type == MessageType::Text && vstd::utf8::valid_utf8(msg.data()) ==> (r matches Ok(
            WireMessage::Text(s),
        ) && s@ == vstd::utf8::decode_utf8(msg.data())),
        msg.msg_type == MessageType::Text && !vstd::utf8::valid_utf8(msg.data()) ==> (r matches Err(
            Error::Utf8Error(_),
        )),
        (msg.msg_type == MessageType::Binary || msg.msg_type == MessageType::Continuation) ==> (
        r matches Ok(WireMessage::Binary(b)) && bytes_view(b) == msg.data()),
        msg.msg_type == MessageType::Ping ==> (r matches Ok(WireMessage::Ping(b)) && bytes_view(b)
            == msg.data()),
        msg.msg_type == MessageType::Pong ==> (r matches Ok(WireMessage::Pong(b)) && bytes_view(b)
            == msg.data()),
        msg.msg_type == MessageType::Close ==> (r matches Ok(WireMessage::Close)),
{
    match msg.msg_type {
        MessageType::Text => match msg.as_text() {
            Ok(s) => Ok(WireMessage::Text(s)),
            Err(e) => Err(e),
        },
        MessageType::Binary => Ok(WireMessage::Binary(msg.payload.clone())),
        MessageType::Ping => Ok(WireMessage::Ping(msg.payload.clone())),
        MessageType::Pong => Ok(WireMessage::Pong(msg.payload.clone())),
        MessageType::Close => Ok(WireMessage::Close),
        MessageType::Continuation => Ok(WireMessage::Binary(msg.payload.clone())),
    }
}

/// The heartbeat's counters allow a pong to be handled.
pub open spec fn pong_fits(h: HeartbeatManager, payload: Seq<u8>) -> bool {
    &&& pong_matches(h.spec_ping_count(), payload) ==> h.spec_pong_count() < u64::MAX
    &&& !pong_matches(h.spec_ping_count(), payload) ==> h.spec_missed() < 255
}

/// What handling a pong does to the heartbeat: a pong echoing the last
/// ping is counted and clears the missed pings, any other is one more
/// missed ping; the pings sent stay as they were.
pub open spec fn pong_handled(before: HeartbeatManager, after: HeartbeatManager, payload: Seq<u8>) -> bool {
    &&& after.spec_config() == before.spec_config()
    &&& after.spec_ping_count() == before.spec_ping_count()
    &&& after.spec_last_ping() == before.spec_last_ping()
    &&& pong_matches(before.spec_ping_count(), payload) ==> {
        &&& after.spec_last_pong() is Some
        &&& after.spec_pong_count() == before.spec_pong_count() + 1
        &&& after.spec_missed() == 0
    }
    &&& !pong_matches(before.spec_ping_count(), payload) ==> {
        &&& after.spec_last_pong() == before.spec_last_pong()
        &&& after.spec_pong_count() == before.spec_pong_count()
        &&& after.spec_missed() == before.spec_missed() + 1
    }
}

/// The metrics' counters allow a received message of `size` bytes to be counted.
pub open spec fn receive_fits(m: ConnectionMetrics, size: nat) -> bool {
    m.messages_received < u64::MAX && m.bytes_received + size <= u64::MAX
}

/// The size in bytes of a data message read from the transport.
pub open spec fn data_size(msg: WireMessage) -> nat {
    match msg {
        WireMessage::Text(s) => vstd::utf8::encode_utf8(s@).len(),
        WireMessage::Binary(b) => bytes_view(b).len(),
        _ => 0,
    }
}

/// The size in bytes of a data message read from the transport.
fn wire_size(msg: &WireMessage) -> (r: usize)
    ensures
        r == data_size(*msg),
{
    match msg {
        WireMessage::Text(s) => s.as_str().as_bytes().len(),
        WireMessage::Binary(b) => b.len(),
        _ => 0,
    }
}

/// What a client does with a message read from the server: a text or
/// binary message is counted as received; a ping is answered with a pong
/// carrying the same payload; a pong goes to the heartbeat (a timeout there
/// does not end the loop); a close is counted as a disconnection and ends
/// the loop; a raw frame is skipped.
pub fn client_incoming(
    heartbeat: &mut HeartbeatManager,
    metrics: &mut MetricsCollector,
    msg: WireMessage,
) -> (r: Reaction)
    requires
        (msg is Text || msg is Binary) ==> receive_fits(old(metrics).spec_metrics(), data_size(msg)),
        msg is Close ==> old(metrics).spec_metrics().disconnections < u64::MAX,
        msg matches WireMessage::Pong(b) ==> pong_fits(*old(heartbeat), bytes_view(b)),
    ensures
        (msg is Text || msg is Binary) ==> (r matches Reaction::Received(n) && n == data_size(msg)
            && final(metrics).spec_metrics().messages_received == old(
            metrics,
        ).spec_metrics().messages_received + 1 && final(metrics).spec_metrics().bytes_received
            == old(metrics).spec_metrics().bytes_received + n),
        msg matches WireMessage::Ping(b) ==> (r matches Reaction::Reply(WireMessage::Pong(p))
            && bytes_view(p) == bytes_view(b)),
        msg matches WireMessage::Pong(b) ==> r is Continue && pong_handled(
            *old(heartbeat),
            *final(heartbeat),
            bytes_view(b),
        ),
        msg is Close ==> r is Stop && final(metrics).spec_metrics().disconnections == old(
            metrics,
        ).spec_metrics().disconnections + 1,
        msg is Frame ==> r is Continue,
        !(msg is Pong) ==> *final(heartbeat) == *old(heartbeat),
        !(msg is Text || msg is Binary || msg is Close) ==> final(metrics).spec_metrics() == old(
            metrics,
        ).spec_metrics(),
{
    match msg {
        WireMessage::Text(s) => {
            let text = Message::text(s);
            let size = text.len();
            metrics.record_message_received(size);
            Reaction::Received(size)
        },
        WireMessage::Binary(b) => {
            let size = b.len();
            metrics.record_message_received(size);
            Reaction::Received(size)
        },
        WireMessage::Ping(b) => {
            let pong = heartbeat.handle_ping(&b);
            Reaction::Reply(WireMessage::Pong(pong.payload.clone()))
        },
        WireMessage::Pong(b) => {
            let _ = heartbeat.handle_pong(&b);
            Reaction::Continue
        },
        WireMessage::Close => {
            metrics.record_disconnection();
            Reaction::Stop
        },
        WireMessage::Frame => Reaction::Continue,
    }
}

/// What a server does with a message read from a client: a text or binary
/// message is counted as received; a ping is answered with a pong carrying
/// the same payload; a pong goes to the heartbeat (a timeout there does not
/// end the loop); a close ends the loop; a raw frame is skipped.
pub fn server_incoming(
    heartbeat: &mut HeartbeatManager,
    metrics: &mut MetricsCollector,
    msg: WireMessage,
) -> (r: Reaction)
    requires
        (msg is Text || msg is Binary) ==> receive_fits(old(metrics).spec_metrics(), data_size(msg)),
        msg matches WireMessage::Pong(b) ==> pong_fits(*old(heartbeat), bytes_view(b)),
    ensures
        (msg is Text || msg is Binary) ==> (r matches Reaction::Received(n) && n == data_size(msg)
            && final(metrics).spec_metrics().messages_received == old(
            metrics,
        ).spec_metrics().messages_received + 1 && final(metrics).spec_metrics().bytes_received
            == old(metrics).spec_metrics().bytes_received + n),
        msg matches WireMessage::Ping(b) ==> (r matches Reaction::Reply(WireMessage::Pong(p))
            && bytes_view(p) == bytes_view(b)),
        msg matches WireMessage::Pong(b) ==> r is Continue && pong_handled(
            *old(heartbeat),
            *final(heartbeat),
            bytes_view(b),
        ),
        msg is Close ==> r is Stop,
        msg is Frame ==> r is Continue,
        !(msg is Pong) ==> *final(heartbeat) == *old(heartbeat),
        !(msg is Text || msg is Binary) ==> final(metrics).spec_metrics() == old(
            metrics,
        ).spec_metrics(),
{
    match msg {
        WireMessage::Text(s) => {
            let size = wire_size(&WireMessage::Text(s));
            metrics.record_message_received(size);
            Reaction::Received(size)
        },
        WireMessage::Binary(b) => {
            let size = b.len();
            metrics.record_message_received(size);
            Reaction::Received(size)
        },
        WireMessage::Ping(b) => {
            let pong = heartbeat.handle_ping(&b);
            Reaction::Reply(WireMessage::Pong(pong.payload.clone()))
        },
        WireMessage::Pong(b) => {
            let _ = heartbeat.handle_pong(&b);
            Reaction::Continue
        },
        WireMessage::Close => Reaction::Stop,
        WireMessage::Frame => Reaction::Continue,
    }
}

/// Whether a server with `current` connections accepts another one:
/// only below its connection limit.
pub fn admits_connection(config: &ServerConfig, current: usize) -> (r: bool)
    ensures
        r == (current < config.max_connections),
{
    current < config.max_connections
}

/// The close message a client sends: status 1000 with the reason when one
/// is given, an empty close otherwise.
pub fn close_message(reason: Option<String>) -> (r: Message)
    ensures
        r.msg_type == MessageType::Close,
        reason is None ==> r.data() == Seq::<u8>::empty(),
        reason matches Some(s) ==> r.data() == seq![3u8, 232u8] + vstd::utf8::encode_utf8(s@),
{
    match reason {
        Some(reason) => Message::close(Some(1000), Some(reason)),
        None => Message::close(None, None),
    }
}

} // verus!
