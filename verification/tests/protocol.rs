use shipwright::protocol::{CompressionAlgorithm, HotReloadMessage, ProtocolCapabilities, SerializationFormat};

#[test]
fn protocol_tests_test_compression() {
    let data = b"Hello World! This is a test string that should compress well.";

    // Test Gzip compression
    let compressed = HotReloadMessage::compress(data, CompressionAlgorithm::Gzip).unwrap();
    let decompressed = HotReloadMessage::decompress(&compressed, CompressionAlgorithm::Gzip).unwrap();
    assert_eq!(data, decompressed.as_slice());

    // Test Brotli compression
    let compressed = HotReloadMessage::compress(data, CompressionAlgorithm::Brotli).unwrap();
    let decompressed = HotReloadMessage::decompress(&compressed, CompressionAlgorithm::Brotli).unwrap();
    assert_eq!(data, decompressed.as_slice());
}

#[test]
fn test_capability_negotiation() {
    let client_caps = ProtocolCapabilities::enhanced();
    let server_caps = ProtocolCapabilities::default();

    let negotiated = HotReloadMessage::negotiate_capabilities(&client_caps, &server_caps);

    // Should fall back to JSON since server only supports JSON
    assert_eq!(negotiated.preferred_serialization, SerializationFormat::Json);
    assert_eq!(negotiated.preferred_compression, CompressionAlgorithm::Identity);
    assert!(!negotiated.supports_delta_updates); // Server doesn't support it
    assert!(!negotiated.supports_batch_operations); // Server doesn't support it
}

#[test]
fn test_enhanced_capabilities() {
    let caps = ProtocolCapabilities::enhanced();

    assert!(caps.serialization_formats.contains(&SerializationFormat::Json));
    assert!(caps.serialization_formats.contains(&SerializationFormat::Cbor));
    assert!(caps.serialization_formats.contains(&SerializationFormat::MessagePack));

    assert!(caps.compression_algorithms.contains(&CompressionAlgorithm::Identity));
    assert!(caps.compression_algorithms.contains(&CompressionAlgorithm::Gzip));
    assert!(caps.compression_algorithms.contains(&CompressionAlgorithm::Brotli));

    assert!(caps.supports_delta_updates);
    assert!(caps.supports_batch_operations);
    assert_eq!(caps.preferred_serialization, SerializationFormat::Cbor);
    assert_eq!(caps.preferred_compression, CompressionAlgorithm::Gzip);
}

#[test]
fn negotiation_between_two_enhanced_peers_keeps_their_preferences() {
    let caps = ProtocolCapabilities::enhanced();
    let negotiated = HotReloadMessage::negotiate_capabilities(&caps, &ProtocolCapabilities::enhanced());
    assert_eq!(negotiated.preferred_serialization, SerializationFormat::Cbor);
    assert_eq!(negotiated.preferred_compression, CompressionAlgorithm::Gzip);
    assert_eq!(
        negotiated.serialization_formats,
        vec![SerializationFormat::Json, SerializationFormat::Cbor, SerializationFormat::MessagePack]
    );
    assert!(negotiated.supports_delta_updates);
    assert!(negotiated.supports_batch_operations);
}

#[test]
fn negotiation_keeps_only_what_both_sides_list() {
    let caps = ProtocolCapabilities::enhanced();
    let negotiated = HotReloadMessage::negotiate_capabilities(&ProtocolCapabilities::default(), &caps);
    assert_eq!(negotiated.serialization_formats, vec![SerializationFormat::Json]);
    assert_eq!(negotiated.compression_algorithms, vec![CompressionAlgorithm::Identity]);
    let negotiated = HotReloadMessage::negotiate_capabilities(&caps, &ProtocolCapabilities::default());
    assert_eq!(negotiated.compression_algorithms, vec![CompressionAlgorithm::Identity]);
}

#[test]
fn compression_changes_the_bytes_and_identity_keeps_them() {
    let data = "Hello World! ".repeat(100);
    let gz = HotReloadMessage::compress(data.as_bytes(), CompressionAlgorithm::Gzip).unwrap();
    assert!(gz.len() < data.len());
    assert_ne!(gz.as_slice(), data.as_bytes());
    let br = HotReloadMessage::compress(data.as_bytes(), CompressionAlgorithm::Brotli).unwrap();
    assert!(br.len() < data.len());
    let plain = HotReloadMessage::compress(data.as_bytes(), CompressionAlgorithm::Identity).unwrap();
    assert_eq!(plain.as_slice(), data.as_bytes());
    assert!(HotReloadMessage::decompress(b"not a gzip stream", CompressionAlgorithm::Gzip).is_err());
}
