use bytes::Bytes;
use websocket_fabric::compression::{
    compression_offer, parse_compression_response, should_compress, CompressionConfig, Compressor,
    Decompressor, DEFAULT_COMPRESSION_LEVEL, DEFAULT_COMPRESSION_THRESHOLD,
};

/// Output bytes per input byte (1.0 before any input): a compression ratio.
fn ratio(total_out: u64, total_in: u64) -> f64 {
    if total_in == 0 {
        1.0
    } else {
        total_out as f64 / total_in as f64
    }
}

#[test]
fn test_compression_config_default() {
    let config = CompressionConfig::default();
    assert!(config.enabled);
    assert_eq!(config.level, DEFAULT_COMPRESSION_LEVEL);
    assert_eq!(config.threshold, DEFAULT_COMPRESSION_THRESHOLD);
    assert_eq!(config.server_max_window_bits, 15);
    assert_eq!(config.client_max_window_bits, 15);
}

#[test]
fn test_compression_config_builder() {
    let config = CompressionConfig::new()
        .with_level(9)
        .with_threshold(2048)
        .with_server_max_window_bits(14);

    assert_eq!(config.level, 9);
    assert_eq!(config.threshold, 2048);
    assert_eq!(config.server_max_window_bits, 14);
}

#[test]
fn test_compression_config_disabled() {
    let config = CompressionConfig::disabled();
    assert!(!config.enabled);
}

#[test]
fn test_compressor_creation() {
    let mut compressor = Compressor::with_level(6).unwrap();
    assert_eq!(compressor.config().level, 6);
    assert!(compressor.config().enabled);
}

#[test]
fn test_compressor_disabled() {
    let config = CompressionConfig::disabled();
    let result = Compressor::new(config);
    assert!(result.is_err());
}

#[test]
fn test_small_message_not_compressed() {
    let mut compressor = Compressor::with_level(6).unwrap();
    let data = b"Hello, World!"; // 13 bytes < threshold

    let compressed = compressor.compress(data).unwrap();
    assert_eq!(compressed.as_ref(), data);
}

#[test]
fn test_compress_decompress() {
    let mut compressor = Compressor::with_level(6).unwrap();
    let mut decompressor = Decompressor::new();

    // Create data larger than threshold
    let data = "Hello, World! ".repeat(100);
    let data_bytes = data.as_bytes();

    let compressed = compressor.compress(data_bytes).unwrap();
    let decompressed = decompressor.decompress(&compressed).unwrap();

    assert_eq!(decompressed.as_ref(), data_bytes);
    // Compression should reduce size
    assert!(compressed.len() < data_bytes.len());
}

#[test]
fn test_compress_repeated_data() {
    let mut compressor = Compressor::with_level(6).unwrap();
    let mut decompressor = Decompressor::new();

    // Repeated patterns compress well
    let data = "A".repeat(10000);
    let data_bytes = data.as_bytes();

    let compressed = compressor.compress(data_bytes).unwrap();
    let decompressed = decompressor.decompress(&compressed).unwrap();

    assert_eq!(decompressed.as_ref(), data_bytes);
    // Should compress very well
    assert!(compressed.len() < data_bytes.len() / 10);
}

#[test]
fn test_compressor_stats() {
    let mut compressor = Compressor::with_level(6).unwrap();

    let data = "Hello, World! ".repeat(100);
    let data_bytes = data.as_bytes();

    compressor.compress(data_bytes).unwrap();

    assert_eq!(compressor.total_input(), data_bytes.len() as u64);
    assert!(compressor.total_output() > 0);
    assert!(ratio(compressor.total_output(), compressor.total_input()) < 1.0);
}

#[test]
fn test_decompressor_stats() {
    let mut compressor = Compressor::with_level(6).unwrap();

    let data = "Test ".repeat(100);
    let data_bytes = data.as_bytes();

    let compressed = compressor.compress(data_bytes).unwrap();

    // Only decompress if compression helped
    let mut decompressor = Decompressor::new();
    let decompressed = if compressed.len() < data_bytes.len() {
        decompressor.decompress(&compressed).unwrap()
    } else {
        // Not compressed, use original
        compressed.clone()
    };

    assert_eq!(decompressed.as_ref(), data_bytes);
    if compressed.len() < data_bytes.len() {
        assert_eq!(decompressor.total_input(), compressed.len() as u64);
        assert_eq!(decompressor.total_output(), data_bytes.len() as u64);
        assert!(ratio(decompressor.total_output(), decompressor.total_input()) > 1.0);
    }
}

#[test]
fn test_compressor_reset() {
    let mut compressor = Compressor::with_level(6).unwrap();

    let data = "Test ".repeat(100);
    let _ = compressor.compress(data.as_bytes()).unwrap();

    let initial_input = compressor.total_input();
    compressor.reset();

    assert_eq!(compressor.total_input(), 0);
    assert_eq!(compressor.total_output(), 0);

    let _ = compressor.compress(data.as_bytes()).unwrap();

    assert_eq!(compressor.total_input(), initial_input);
}

#[test]
fn test_decompressor_reset() {
    let mut compressor = Compressor::with_level(6).unwrap();

    let data = "Test ".repeat(100);
    let compressed = compressor.compress(data.as_bytes()).unwrap();

    // Only test reset if compression actually happened
    if compressed.len() < data.as_bytes().len() {
        let mut decompressor = Decompressor::new();
        let _ = decompressor.decompress(&compressed).unwrap();

        let initial_input = decompressor.total_input();
        let initial_output = decompressor.total_output();

        decompressor.reset();

        assert_eq!(decompressor.total_input(), 0);
        assert_eq!(decompressor.total_output(), 0);

        let _ = decompressor.decompress(&compressed).unwrap();

        assert_eq!(decompressor.total_input(), initial_input);
        assert_eq!(decompressor.total_output(), initial_output);
    }
}

#[test]
fn test_should_compress() {
    let config = CompressionConfig::new()
        .with_threshold(100);

    // Small message - should not compress
    assert!(!should_compress(&config, b"Hello"));

    // Large message - should compress
    assert!(should_compress(&config, &b"A".repeat(200)));

    // Disabled - should not compress
    let disabled = CompressionConfig::disabled();
    assert!(!should_compress(&disabled, &b"A".repeat(200)));
}

#[test]
fn test_compression_offer() {
    let config = CompressionConfig::new()
        .with_server_max_window_bits(14)
        .with_client_max_window_bits(14);

    let offer = compression_offer(&config);

    assert!(offer.contains("permessage-deflate"));
    assert!(offer.contains("server_max_window_bits=14"));
    assert!(offer.contains("client_max_window_bits=14"));
}

#[test]
fn test_parse_compression_response() {
    let header = "permessage-deflate; server_max_window_bits=14; client_max_window_bits=14; server_no_context_takeover";

    let config = parse_compression_response(header).unwrap();

    assert!(config.enabled);
    assert_eq!(config.server_max_window_bits, 14);
    assert_eq!(config.client_max_window_bits, 14);
    assert!(config.server_no_context_takeover);
}

#[test]
fn test_parse_compression_response_disabled() {
    let header = "gzip";

    let config = parse_compression_response(header).unwrap();

    assert!(!config.enabled);
}

#[test]
fn test_binary_data_compression() {
    let mut compressor = Compressor::with_level(6).unwrap();
    let mut decompressor = Decompressor::new();

    // Binary data with patterns
    let data: Vec<u8> = (0..255).cycle().take(10000).collect();

    let compressed = compressor.compress(&data).unwrap();
    let decompressed = decompressor.decompress(&compressed).unwrap();

    assert_eq!(decompressed.as_ref(), data.as_slice());
    assert!(compressed.len() < data.len());
}

#[test]
fn test_high_compression_level() {
    let mut compressor = Compressor::with_level(9).unwrap();
    let mut decompressor = Decompressor::new();

    let data = "Repeated pattern ".repeat(1000);
    let data_bytes = data.as_bytes();

    let compressed = compressor.compress(data_bytes).unwrap();
    let decompressed = decompressor.decompress(&compressed).unwrap();

    assert_eq!(decompressed.as_ref(), data_bytes);
    // High compression should work well on repeated data
    assert!(compressed.len() < data_bytes.len() / 5);
}

#[test]
fn test_fast_compression_level() {
    let mut compressor = Compressor::with_level(1).unwrap();
    let mut decompressor = Decompressor::new();

    let data = "Test data ".repeat(1000);
    let data_bytes = data.as_bytes();

    let compressed = compressor.compress(data_bytes).unwrap();
    let decompressed = decompressor.decompress(&compressed).unwrap();

    assert_eq!(decompressed.as_ref(), data_bytes);
    assert!(compressed.len() < data_bytes.len());
}

#[test]
fn test_no_compression_level() {
    let mut compressor = Compressor::with_level(0).unwrap();

    let data = "Test data ".repeat(100);
    let data_bytes = data.as_bytes();

    // Level 0 may not compress well, so we just verify it doesn't error
    let compressed = compressor.compress(data_bytes).unwrap();

    // May or may not be smaller depending on data
    // Level 0 is "no compression" mode
    assert!(compressed.len() >= data_bytes.len() || compressed.len() < data_bytes.len());
}

#[test]
fn test_compress_decompress_multiple_messages() {
    let mut compressor = Compressor::with_level(6).unwrap();

    let messages = vec![
        "Message 1 ".repeat(100),
        "Message 2 ".repeat(200),
        "Message 3 ".repeat(150),
    ];

    for msg in &messages {
        let compressed = compressor.compress(msg.as_bytes()).unwrap();

        // If the data was compressed (smaller than original), decompress it
        // If not compressed (compression didn't help), compare directly
        if compressed.len() < msg.as_bytes().len() {
            let mut decompressor = Decompressor::new();
            let decompressed = decompressor.decompress(&compressed).unwrap();
            assert_eq!(decompressed.as_ref(), msg.as_bytes());
        } else {
            // Data returned as-is
            assert_eq!(compressed.as_ref(), msg.as_bytes());
        }
    }

    // Verify stats accumulated
    assert!(compressor.total_input() > 0);
}

#[test]
fn test_unicode_text_compression() {
    let mut compressor = Compressor::with_level(6).unwrap();
    let mut decompressor = Decompressor::new();

    let text = "🔥 Unicode test: こんにちは 世界 안녕하세요 ".repeat(100);
    let text_bytes = text.as_bytes();

    let compressed = compressor.compress(text_bytes).unwrap();
    let decompressed = decompressor.decompress(&compressed).unwrap();

    assert_eq!(decompressed.as_ref(), text_bytes);
    assert!(compressed.len() < text_bytes.len());
}

#[test]
fn offer_parses_back_to_its_parameters() {
    let config = CompressionConfig::new()
        .with_server_max_window_bits(10)
        .with_client_max_window_bits(12)
        .with_server_no_context_takeover(true);
    let offer = compression_offer(&config);
    assert_eq!(
        offer,
        "permessage-deflate; server_max_window_bits=10; client_max_window_bits=12; server_no_context_takeover"
    );
    let parsed = parse_compression_response(&offer).unwrap();
    assert!(parsed.enabled);
    assert_eq!(parsed.server_max_window_bits, 10);
    assert_eq!(parsed.client_max_window_bits, 12);
    assert!(parsed.server_no_context_takeover);
    assert!(!parsed.client_no_context_takeover);
}

#[test]
fn out_of_range_window_bits_fall_back_to_fifteen() {
    let parsed = parse_compression_response(
        "PerMessage-Deflate; server_max_window_bits=7; client_max_window_bits=300",
    )
    .unwrap();
    assert!(parsed.enabled);
    assert_eq!(parsed.server_max_window_bits, 15);
    assert_eq!(parsed.client_max_window_bits, 15);
}

#[test]
fn compress_at_or_above_threshold_succeeds() {
    let mut compressor = Compressor::with_level(6).unwrap();
    let data = vec![7u8; 4096];
    let out = compressor.compress(&data).unwrap();
    assert!(out.len() < data.len());
    assert_eq!(compressor.total_input(), 4096);
}
