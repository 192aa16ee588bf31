use bytes::Bytes;
use websocket_fabric::config::{HeartbeatConfig, ServerConfig};
use websocket_fabric::error::Error;
use websocket_fabric::heartbeat::HeartbeatManager;
use websocket_fabric::message::{Message, MessageType};
use websocket_fabric::metrics::MetricsCollector;
use websocket_fabric::session::{
    admits_connection, client_incoming, close_message, outgoing, server_incoming, Reaction, WireMessage,
};

#[test]
fn test_outgoing_kinds() {
    assert!(matches!(outgoing(&Message::text("hi")), Ok(WireMessage::Text(s)) if s == "hi"));
    assert!(matches!(outgoing(&Message::binary(vec![1u8, 2])), Ok(WireMessage::Binary(b)) if b.as_ref() == [1u8, 2]));
    assert!(matches!(outgoing(&Message::ping(&b"p"[..])), Ok(WireMessage::Ping(b)) if b.as_ref() == b"p"));
    assert!(matches!(outgoing(&Message::pong(&b"q"[..])), Ok(WireMessage::Pong(b)) if b.as_ref() == b"q"));
    assert!(matches!(outgoing(&Message::close(Some(1000), None)), Ok(WireMessage::Close)));
    let cont = Message { msg_type: MessageType::Continuation, payload: Bytes::from_static(b"c") };
    assert!(matches!(outgoing(&cont), Ok(WireMessage::Binary(b)) if b.as_ref() == b"c"));
}

#[test]
fn test_outgoing_invalid_text() {
    let bad = Message { msg_type: MessageType::Text, payload: Bytes::from_static(&[0xff, 0xfe]) };
    assert!(matches!(outgoing(&bad), Err(Error::Utf8Error(_))));
}

#[test]
fn test_client_incoming() {
    let mut heartbeat = HeartbeatManager::new(HeartbeatConfig::new());
    let mut metrics = MetricsCollector::new();
    let r = client_incoming(&mut heartbeat, &mut metrics, WireMessage::Text("héllo".to_string()));
    assert!(matches!(r, Reaction::Received(6)));
    assert_eq!(metrics.message_stats(), (0, 1));
    assert_eq!(metrics.byte_stats(), (0, 6));
    let r = client_incoming(&mut heartbeat, &mut metrics, WireMessage::Ping(Bytes::from_static(b"abc")));
    assert!(matches!(r, Reaction::Reply(WireMessage::Pong(b)) if b.as_ref() == b"abc"));
    let ping = heartbeat.ping();
    let r = client_incoming(&mut heartbeat, &mut metrics, WireMessage::Pong(ping.payload.clone()));
    assert!(matches!(r, Reaction::Continue));
    assert_eq!(heartbeat.pong_count(), 1);
    metrics.record_connection();
    let r = client_incoming(&mut heartbeat, &mut metrics, WireMessage::Close);
    assert!(matches!(r, Reaction::Stop));
    assert_eq!(metrics.active_connections(), 0);
    assert!(matches!(client_incoming(&mut heartbeat, &mut metrics, WireMessage::Frame), Reaction::Continue));
}

#[test]
fn test_server_incoming() {
    let mut heartbeat = HeartbeatManager::new(HeartbeatConfig::new());
    let mut metrics = MetricsCollector::new();
    let r = server_incoming(&mut heartbeat, &mut metrics, WireMessage::Binary(Bytes::from_static(&[1, 2, 3])));
    assert!(matches!(r, Reaction::Received(3)));
    assert_eq!(metrics.byte_stats(), (0, 3));
    assert!(matches!(server_incoming(&mut heartbeat, &mut metrics, WireMessage::Close), Reaction::Stop));
    let r = server_incoming(&mut heartbeat, &mut metrics, WireMessage::Pong(Bytes::from_static(b"x")));
    assert!(matches!(r, Reaction::Continue));
    assert_eq!(heartbeat.missed_pings(), 1);
}

#[test]
fn test_admits_connection() {
    let config = ServerConfig::new("0.0.0.0:1").with_max_connections(2);
    assert!(admits_connection(&config, 1));
    assert!(!admits_connection(&config, 2));
}

#[test]
fn test_close_message() {
    let m = close_message(Some("bye".to_string()));
    assert!(m.is_close());
    assert_eq!(m.as_bytes(), &[3u8, 232, b'b', b'y', b'e']);
    assert!(close_message(None).is_empty());
}
