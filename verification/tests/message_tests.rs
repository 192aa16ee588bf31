use bytes::Bytes;
use websocket_fabric::message::{Frame, Message};

#[test]
fn test_message_text() {
    let msg = Message::text("Hello");
    assert!(msg.is_text());
    assert_eq!(msg.as_text().unwrap(), "Hello");
    assert_eq!(msg.len(), 5);
}

#[test]
fn test_message_binary() {
    let data = vec![1, 2, 3, 4];
    let msg = Message::binary(data.clone());
    assert!(msg.is_binary());
    assert_eq!(msg.as_bytes(), &data[..]);
}

#[test]
fn test_message_ping() {
    let msg = Message::ping(&b"ping"[..]);
    assert!(msg.is_ping());
    assert_eq!(msg.as_bytes(), b"ping");
}

#[test]
fn test_message_pong() {
    let msg = Message::pong(&b"pong"[..]);
    assert!(msg.is_pong());
    assert_eq!(msg.as_bytes(), b"pong");
}

#[test]
fn test_message_close() {
    let msg = Message::close(Some(1000), Some("Normal closure".to_string()));
    assert!(msg.is_close());
    assert!(msg.payload.len() > 2); // code + reason
}

#[test]
fn test_frame_creation() {
    let frame = Frame::new(true, 0x01, Bytes::new());
    assert!(frame.is_final());
    assert_eq!(frame.opcode(), 0x01);
    assert_eq!(frame.len(), 0);
}

#[test]
fn test_message_from_string() {
    let msg = Message::from("Hello");
    assert!(msg.is_text());
    assert_eq!(msg.as_text().unwrap(), "Hello");
}

#[test]
fn message_from_owned_text_and_bytes() {
    let msg = Message::from(String::from("hi"));
    assert!(msg.is_text());
    assert_eq!(msg.as_bytes(), b"hi");

    let bin = Message::from(vec![1u8, 2, 3]);
    assert!(bin.is_binary());
    assert_eq!(bin.as_bytes(), &[1u8, 2, 3][..]);

    let slice: &[u8] = &[9u8, 8];
    let bin2 = Message::from(slice);
    assert!(bin2.is_binary());
    assert_eq!(bin2.len(), 2);
}
