use bytes::Bytes;
use std::time::Duration;
use websocket_fabric::error::Error;
use websocket_fabric::fragmentation::{
    default_reassembly_timeout, Fragmenter, PartialMessage, Reassembler, DEFAULT_MAX_FRAME_SIZE,
    OPCODE_BINARY, OPCODE_CLOSE, OPCODE_CONTINUATION, OPCODE_PING, OPCODE_PONG, OPCODE_TEXT,
};
use websocket_fabric::message::{Frame, Message};

#[test]
fn test_fragmenter_creation() {
    let fragmenter = Fragmenter::new(1024);
    assert_eq!(fragmenter.max_frame_size(), 1024);
}

#[test]
fn test_fragmenter_default() {
    let fragmenter = Fragmenter::default();
    assert_eq!(fragmenter.max_frame_size(), DEFAULT_MAX_FRAME_SIZE);
}

#[test]
fn test_fragmenter_small_message() {
    let fragmenter = Fragmenter::new(1024);
    let message = Message::text("Hello, World!");

    let frames = fragmenter.split_message(&message);

    assert_eq!(frames.len(), 1);
    assert!(frames[0].fin);
    assert_eq!(frames[0].opcode, OPCODE_TEXT);
    assert_eq!(&frames[0].payload[..], b"Hello, World!");
}

#[test]
fn test_fragmenter_large_text_message() {
    let fragmenter = Fragmenter::new(200);
    let message = Message::text("A".repeat(500));

    let frames = fragmenter.split_message(&message);

    assert!(frames.len() > 1);
    assert_eq!(frames[0].opcode, OPCODE_TEXT);
    assert!(!frames[0].fin);

    // Middle frames should be continuation
    for frame in &frames[1..frames.len() - 1] {
        assert_eq!(frame.opcode, OPCODE_CONTINUATION);
        assert!(!frame.fin);
    }

    // Last frame should be FIN
    assert!(frames.last().unwrap().fin);
}

#[test]
fn test_fragmenter_large_binary_message() {
    let fragmenter = Fragmenter::new(200);
    let data = vec![0u8; 500];
    let message = Message::binary(data.clone());

    let frames = fragmenter.split_message(&message);

    assert!(frames.len() > 1);
    assert_eq!(frames[0].opcode, OPCODE_BINARY);
    assert!(!frames[0].fin);

    // Middle frames should be continuation
    for frame in &frames[1..frames.len() - 1] {
        assert_eq!(frame.opcode, OPCODE_CONTINUATION);
        assert!(!frame.fin);
    }

    // Last frame should be FIN
    assert!(frames.last().unwrap().fin);
}

#[test]
fn test_fragmenter_exactly_max_size() {
    let fragmenter = Fragmenter::new(200);
    let message = Message::text("A".repeat(200));

    let frames = fragmenter.split_message(&message);

    assert_eq!(frames.len(), 1);
    assert!(frames[0].fin);
}

#[test]
fn test_fragmenter_one_byte_over_max() {
    let fragmenter = Fragmenter::new(200);
    let message = Message::text("A".repeat(201));

    let frames = fragmenter.split_message(&message);

    assert_eq!(frames.len(), 2);
    assert_eq!(frames[0].payload.len(), 200);
    assert_eq!(frames[1].payload.len(), 1);
}

#[test]
fn test_fragmenter_calculate_frame_count() {
    let fragmenter = Fragmenter::new(200);

    assert_eq!(fragmenter.calculate_frame_count(50), 1);
    assert_eq!(fragmenter.calculate_frame_count(200), 1);
    assert_eq!(fragmenter.calculate_frame_count(201), 2);
    assert_eq!(fragmenter.calculate_frame_count(1000), 5);
    assert_eq!(fragmenter.calculate_frame_count(2000), 10);
}

#[test]
fn test_fragmenter_needs_fragmentation() {
    let fragmenter = Fragmenter::new(200);

    let small_msg = Message::text("small");
    assert!(!fragmenter.needs_fragmentation(&small_msg));

    let large_msg = Message::text("A".repeat(300));
    assert!(fragmenter.needs_fragmentation(&large_msg));
}

#[test]
fn test_reassembler_creation() {
    let mut reassembler = Reassembler::new(Duration::from_secs(10));
    assert_eq!(reassembler.timeout(), Duration::from_secs(10));
}

#[test]
fn test_reassembler_default() {
    let mut reassembler = Reassembler::default();
    assert_eq!(reassembler.timeout(), default_reassembly_timeout());
}

#[test]
fn test_reassembler_unfragmented_message() {
    let mut reassembler = Reassembler::default();
    let frame = Frame::new(true, OPCODE_TEXT, Bytes::copy_from_slice(b"Hello"));

    let result = reassembler.ingest_frame(&frame, 1);

    assert!(result.is_ok());
    let message = result.unwrap().unwrap();
    assert!(message.is_text());
    assert_eq!(message.as_text().unwrap(), "Hello");
}

#[test]
fn test_reassembler_fragmented_message() {
    let fragmenter = Fragmenter::new(150);
    let mut reassembler = Reassembler::default();

    let message = Message::text("A".repeat(300));
    let frames = fragmenter.split_message(&message);

    let mut complete_message = None;

    for frame in frames {
        let result = reassembler.ingest_frame(&frame, 1).unwrap();
        if let Some(msg) = result {
            complete_message = Some(msg);
        }
    }

    assert!(complete_message.is_some());
    let reassembled = complete_message.unwrap();
    assert!(reassembled.is_text());
    assert_eq!(reassembled.len(), 300);
    assert_eq!(reassembled.as_text().unwrap(), "A".repeat(300));
}

#[test]
fn test_reassembler_continuation_without_start() {
    let mut reassembler = Reassembler::default();
    let frame = Frame::new(true, OPCODE_CONTINUATION, Bytes::new());

    let result = reassembler.ingest_frame(&frame, 1);

    assert!(result.is_err());
    assert!(matches!(
        result.unwrap_err(),
        Error::ProtocolViolation(_)
    ));
}

#[test]
fn test_reassembler_overlapping_fragments() {
    let mut reassembler = Reassembler::default();

    // Start first fragmented message
    let frame1 = Frame::new(false, OPCODE_TEXT, Bytes::copy_from_slice(b"First"));
    let result1 = reassembler.ingest_frame(&frame1, 1).unwrap();
    assert!(result1.is_none());

    // Try to start another fragmented message on same connection
    let frame2 = Frame::new(false, OPCODE_TEXT, Bytes::copy_from_slice(b"Second"));
    let result2 = reassembler.ingest_frame(&frame2, 1);

    assert!(result2.is_err());
}

#[test]
fn test_reassembler_multiple_connections() {
    let fragmenter = Fragmenter::new(150);
    let mut reassembler = Reassembler::default();

    // Create fragmented messages for different connections
    let msg1 = Message::text("A".repeat(300));
    let frames1 = fragmenter.split_message(&msg1);

    let msg2 = Message::text("B".repeat(300));
    let frames2 = fragmenter.split_message(&msg2);

    // Interleave frames from different connections
    let mut results = Vec::new();

    for (i, (frame1, frame2)) in frames1.iter().zip(frames2.iter()).enumerate() {
        if i < frames1.len() {
            if let Some(msg) = reassembler.ingest_frame(frame1, 1).unwrap() {
                results.push((1, msg));
            }
        }
        if i < frames2.len() {
            if let Some(msg) = reassembler.ingest_frame(frame2, 2).unwrap() {
                results.push((2, msg));
            }
        }
    }

    assert_eq!(results.len(), 2);
    assert_eq!(results[0].0, 1);
    assert_eq!(results[1].0, 2);
}

#[test]
fn test_reassembler_control_frames() {
    let mut reassembler = Reassembler::default();

    // Ping frame
    let ping = Frame::new(true, OPCODE_PING, Bytes::copy_from_slice(b"ping"));
    let result = reassembler.ingest_frame(&ping, 1).unwrap();
    assert!(result.is_some());
    assert!(result.unwrap().is_ping());

    // Pong frame
    let pong = Frame::new(true, OPCODE_PONG, Bytes::copy_from_slice(b"pong"));
    let result = reassembler.ingest_frame(&pong, 1).unwrap();
    assert!(result.is_some());
    assert!(result.unwrap().is_pong());

    // Close frame
    let close = Frame::new(true, OPCODE_CLOSE, Bytes::new());
    let result = reassembler.ingest_frame(&close, 1).unwrap();
    assert!(result.is_some());
    assert!(result.unwrap().is_close());
}

#[test]
fn test_reassembler_in_progress_count() {
    let mut reassembler = Reassembler::default();

    assert_eq!(reassembler.in_progress_count(), 0);

    // Start a fragmented message
    let frame1 = Frame::new(false, OPCODE_TEXT, Bytes::copy_from_slice(b"Start"));
    reassembler.ingest_frame(&frame1, 1).unwrap();

    assert_eq!(reassembler.in_progress_count(), 1);

    // Start another on different connection
    let frame2 = Frame::new(false, OPCODE_TEXT, Bytes::copy_from_slice(b"Start2"));
    reassembler.ingest_frame(&frame2, 2).unwrap();

    assert_eq!(reassembler.in_progress_count(), 2);

    // Complete first
    let frame3 = Frame::new(true, OPCODE_CONTINUATION, Bytes::new());
    reassembler.ingest_frame(&frame3, 1).unwrap();

    assert_eq!(reassembler.in_progress_count(), 1);
}

#[test]
fn test_reassembler_abort() {
    let mut reassembler = Reassembler::default();

    // Start a fragmented message
    let frame1 = Frame::new(false, OPCODE_TEXT, Bytes::copy_from_slice(b"Start"));
    reassembler.ingest_frame(&frame1, 1).unwrap();

    assert_eq!(reassembler.in_progress_count(), 1);

    // Abort it
    let aborted = reassembler.abort(1);
    assert!(aborted);
    assert_eq!(reassembler.in_progress_count(), 0);

    // Abort again returns false
    let aborted = reassembler.abort(1);
    assert!(!aborted);
}

#[test]
fn test_reassembler_in_progress_size() {
    let mut reassembler = Reassembler::default();

    // Start fragmented messages
    let frame1 = Frame::new(false, OPCODE_TEXT, Bytes::copy_from_slice(b"12345"));
    reassembler.ingest_frame(&frame1, 1).unwrap();

    let frame2 = Frame::new(false, OPCODE_TEXT, Bytes::copy_from_slice(b"67890"));
    reassembler.ingest_frame(&frame2, 2).unwrap();

    let size = reassembler.in_progress_size();
    assert_eq!(size, 10);
}

#[test]
fn test_fragmentation_roundtrip_binary() {
    let fragmenter = Fragmenter::new(200);
    let mut reassembler = Reassembler::default();

    let original_data: Vec<u8> = (0..255).cycle().take(500).collect();
    let original = Message::binary(original_data.clone());

    let frames = fragmenter.split_message(&original);

    let mut reassembled = None;
    for frame in frames {
        if let Some(msg) = reassembler.ingest_frame(&frame, 1).unwrap() {
            reassembled = Some(msg);
        }
    }

    assert!(reassembled.is_some());
    let result = reassembled.unwrap();
    assert!(result.is_binary());
    assert_eq!(result.as_bytes(), &original_data[..]);
}

#[test]
fn test_fragmentation_roundtrip_text() {
    let fragmenter = Fragmenter::new(200);
    let mut reassembler = Reassembler::default();

    let original_text = "Hello, World! ".repeat(50);
    let original = Message::text(original_text.clone());

    let frames = fragmenter.split_message(&original);

    let mut reassembled = None;
    for frame in frames {
        if let Some(msg) = reassembler.ingest_frame(&frame, 1).unwrap() {
            reassembled = Some(msg);
        }
    }

    assert!(reassembled.is_some());
    let result = reassembled.unwrap();
    assert!(result.is_text());
    assert_eq!(result.as_text().unwrap(), original_text);
}

#[test]
fn test_fragmentation_empty_message() {
    let fragmenter = Fragmenter::new(200);
    let message = Message::text("");

    let frames = fragmenter.split_message(&message);

    assert_eq!(frames.len(), 1);
    assert!(frames[0].fin);
    assert_eq!(frames[0].payload.len(), 0);
}

#[test]
fn test_fragmentation_single_byte() {
    let fragmenter = Fragmenter::new(200);
    let message = Message::text("A");

    let frames = fragmenter.split_message(&message);

    assert_eq!(frames.len(), 1);
    assert!(frames[0].fin);
    assert_eq!(frames[0].payload.len(), 1);
}

#[test]
fn test_unknown_opcode() {
    let mut reassembler = Reassembler::default();
    let frame = Frame::new(true, 0x7, Bytes::new()); // Invalid opcode

    let result = reassembler.ingest_frame(&frame, 1);

    assert!(result.is_err());
}

#[test]
fn test_reassembler_large_fragmented_binary() {
    let fragmenter = Fragmenter::new(16 * 1024); // 16KB
    let mut reassembler = Reassembler::default();

    // Create 1MB binary message
    let large_data: Vec<u8> = (0..255).cycle().take(1024 * 1024).collect();
    let original = Message::binary(large_data.clone());

    let frames = fragmenter.split_message(&original);

    // Should be roughly 64 frames (1MB / 16KB)
    assert!(frames.len() > 60 && frames.len() < 70);

    let mut reassembled = None;
    for frame in frames {
        if let Some(msg) = reassembler.ingest_frame(&frame, 1).unwrap() {
            reassembled = Some(msg);
        }
    }

    assert!(reassembled.is_some());
    let result = reassembled.unwrap();
    assert_eq!(result.as_bytes().len(), 1024 * 1024);
    assert_eq!(result.as_bytes(), &large_data[..]);
}

#[test]
fn test_partial_message_assemble() {
    // Create a partial message
    let mut partial = PartialMessage::new(OPCODE_TEXT, Bytes::from("Hello"), 0);
    partial.add_fragment(Bytes::from(", "));
    partial.add_fragment(Bytes::from("World"));

    let message = partial.assemble();

    assert!(message.is_text());
    assert_eq!(message.as_text().unwrap(), "Hello, World");
}

#[test]
fn test_partial_message_total_size() {
    let mut partial = PartialMessage::new(OPCODE_TEXT, Bytes::from("Hello"), 0);

    assert_eq!(partial.total_size(), 5);

    partial.add_fragment(Bytes::from("World"));

    assert_eq!(partial.total_size(), 10);
}

#[test]
fn test_reassembler_timeout() {
    let mut reassembler = Reassembler::new(Duration::from_millis(100));

    // Start a fragmented message
    let frame1 = Frame::new(false, OPCODE_TEXT, Bytes::copy_from_slice(b"Start"));
    reassembler.ingest_frame_at(&frame1, 1, 0).unwrap();

    assert_eq!(reassembler.in_progress_count(), 1);

    // 150 ms later: the message has timed out
    let frame2 = Frame::new(true, OPCODE_CONTINUATION, Bytes::new());
    let result = reassembler.ingest_frame_at(&frame2, 1, 150_000_000);

    assert!(result.is_err());
}

#[test]
fn test_reassembler_cleanup_expired() {
    let mut reassembler = Reassembler::new(Duration::from_millis(100));

    // Start a fragmented message
    let frame1 = Frame::new(false, OPCODE_TEXT, Bytes::copy_from_slice(b"Start"));
    reassembler.ingest_frame_at(&frame1, 1, 0).unwrap();

    assert_eq!(reassembler.in_progress_count(), 1);

    // Clean up expired, 150 ms later
    reassembler.cleanup_all_expired_at(150_000_000);

    assert_eq!(reassembler.in_progress_count(), 0);
}

#[test]
fn test_partial_message_is_expired() {
    let partial = PartialMessage::new(OPCODE_TEXT, Bytes::from("Test"), 0);

    // Not expired right away
    assert!(!partial.is_expired(Duration::from_secs(1), 0));

    // Expired 100 ms later for a 50 ms timeout
    assert!(partial.is_expired(Duration::from_millis(50), 100_000_000));
}
