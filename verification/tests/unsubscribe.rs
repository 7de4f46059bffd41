use picobroker_core::protocol::error::{PacketEncodingError, ProtocolError};
use picobroker_core::protocol::heapless::{HeaplessString, HeaplessVec};
use picobroker_core::protocol::qos::QoS;
use picobroker_core::topics::TopicName;
use picobroker_core::protocol::packets::{PacketEncoder, UnsubscribePacket};
const MAX_TOPIC_NAME_LENGTH: usize = 30;

// ===== HELPER FUNCTIONS =====

fn roundtrip_test(bytes: &[u8]) -> UnsubscribePacket<MAX_TOPIC_NAME_LENGTH> {
    let result = UnsubscribePacket::<MAX_TOPIC_NAME_LENGTH>::decode(bytes);
    assert!(
        result.is_ok(),
        "Failed to decode packet: {:?}",
        result.err()
    );
    let packet = result.unwrap();
    let mut buffer = [0u8; 128];
    let encode_result = packet.encode(&mut buffer);
    assert!(
        encode_result.is_ok(),
        "Failed to encode packet: {:?}",
        encode_result.err()
    );
    let encoded_size = encode_result.unwrap();
    assert_eq!(encoded_size, bytes.len(), "Encoded size mismatch");
    assert_eq!(&buffer[..encoded_size], bytes, "Encoded bytes mismatch");
    packet
}

#[allow(dead_code)]
fn decode_test(
    bytes: &[u8],
) -> Result<UnsubscribePacket<MAX_TOPIC_NAME_LENGTH>, ProtocolError> {
    UnsubscribePacket::<MAX_TOPIC_NAME_LENGTH>::decode(bytes)
}

// ===== STRUCT SIZE TEST =====

#[test]
fn test_unsubscribe_packet_struct_size() {
    // Should be 34 bytes: 2 for packet_id + 32 for topic_filter (HeaplessString with MAX_TOPIC_NAME_LENGTH=30)
    // HeaplessString<30> is 32 bytes (30 bytes array + 2 bytes for length)
    assert_eq!(
        core::mem::size_of::<UnsubscribePacket<MAX_TOPIC_NAME_LENGTH>>(),
        34
    );
}

// ===== PACKET ID FIELD TESTS =====

#[test]
fn unsubscribe_test_packet_id_one() {
    let bytes = [0xA2, 0x05, 0x00, 0x01, 0x00, 0x01, 0x61];
    let packet = roundtrip_test(&bytes);
    assert_eq!(packet.packet_id, 1);
}

#[test]
fn unsubscribe_test_packet_id_max() {
    let bytes = [0xA2, 0x05, 0xFF, 0xFF, 0x00, 0x01, 0x61];
    let packet = roundtrip_test(&bytes);
    assert_eq!(packet.packet_id, 65535);
}

// ===== TOPIC FILTER FIELD TESTS =====

#[test]
fn unsubscribe_test_topic_filter_simple() {
    let bytes = [
        0xA2, 0x10, 0x00, 0x01, 0x00, 0x0C, 0x73, 0x65, 0x6E, 0x73, 0x6F, 0x72, 0x73, 0x2F,
        0x74, 0x65, 0x6D, 0x70,
    ];
    let packet = roundtrip_test(&bytes);
    assert_eq!(packet.topic_filter.as_str(), "sensors/temp");
}

#[test]
fn unsubscribe_test_topic_filter_multi_level() {
    let bytes = [
        0xA2, 0x19, 0x00, 0x01, 0x00, 0x15, 0x68, 0x6F, 0x6D, 0x65, 0x2F, 0x6C, 0x69, 0x76,
        0x69, 0x6E, 0x67, 0x72, 0x6F, 0x6F, 0x6D, 0x2F, 0x6C, 0x69, 0x67, 0x68, 0x74,
    ];
    let packet = roundtrip_test(&bytes);
    assert_eq!(packet.topic_filter.as_str(), "home/livingroom/light");
}

#[test]
fn unsubscribe_test_topic_filter_with_wildcards() {
    // Single-level wildcard
    let bytes = [
        0xA2, 0x12, 0x00, 0x01, 0x00, 0x0E, 0x73, 0x65, 0x6E, 0x73, 0x6F, 0x72, 0x73, 0x2F,
        0x2B, 0x2F, 0x74, 0x65, 0x6D, 0x70,
    ];
    let packet = roundtrip_test(&bytes);
    assert_eq!(packet.topic_filter.as_str(), "sensors/+/temp");

    // Multi-level wildcard
    let bytes = [
        0xA2, 0x0D, 0x00, 0x01, 0x00, 0x09, 0x73, 0x65, 0x6E, 0x73, 0x6F, 0x72, 0x73, 0x2F,
        0x23,
    ];
    let packet = roundtrip_test(&bytes);
    assert_eq!(packet.topic_filter.as_str(), "sensors/#");
}

#[test]
fn unsubscribe_test_topic_filter_single_char() {
    // Single character "a"
    let bytes = [0xA2, 0x05, 0x00, 0x01, 0x00, 0x01, 0x61];
    let packet = roundtrip_test(&bytes);
    assert_eq!(packet.topic_filter.as_str(), "a");

    // Single wildcard "#"
    let bytes = [0xA2, 0x05, 0x00, 0x01, 0x00, 0x01, 0x23];
    let packet = roundtrip_test(&bytes);
    assert_eq!(packet.topic_filter.as_str(), "#");

    // Single single-level wildcard "+"
    let bytes = [0xA2, 0x05, 0x00, 0x01, 0x00, 0x01, 0x2B];
    let packet = roundtrip_test(&bytes);
    assert_eq!(packet.topic_filter.as_str(), "+");
}

#[test]
fn unsubscribe_test_topic_filter_unicode() {
    // Test with simple Unicode: "ñáé" (Spanish characters with accents)
    // UTF-8 encoding: ñ = 0xC3 0xB1, á = 0xC3 0xA1, é = 0xC3 0xA9
    let bytes = [
        0xA2, 0x0A, 0x00, 0x01, 0x00, 0x06, 0xC3, 0xB1, 0xC3, 0xA1, 0xC3, 0xA9,
    ];
    let packet = roundtrip_test(&bytes);
    assert_eq!(packet.topic_filter.as_str(), "ñáé");
}

#[test]
fn unsubscribe_test_topic_filter_special_mqtt_chars() {
    let bytes = [
        0xA2, 0x0A, 0x00, 0x01, 0x00, 0x06, 0x61, 0x2F, 0x62, 0x2B, 0x2F, 0x63,
    ];
    let packet = roundtrip_test(&bytes);
    assert_eq!(packet.topic_filter.as_str(), "a/b+/c");
}

#[test]
fn unsubscribe_test_topic_filter_exactly_max_length() {
    let topic = "123456789012345678901234567890"; // Exactly 30 characters
    let mut bytes = [0u8; 36];
    bytes[0] = 0xA2; // Header byte
    bytes[1] = 0x22; // Remaining length = 34 (2 + 2 + 30)
    bytes[2] = 0x00;
    bytes[3] = 0x01;
    bytes[4] = 0x00;
    bytes[5] = 30;
    bytes[6..36].copy_from_slice(topic.as_bytes());
    let packet = roundtrip_test(&bytes);
    assert_eq!(packet.topic_filter.len(), 30);
}

// ===== COMPLETE PACKET ROUNDTRIP TESTS =====

#[test]
fn test_roundtrip_minimal_packet() {
    // Minimal packet: packet_id=1, topic="a"
    let bytes = [0xA2, 0x05, 0x00, 0x01, 0x00, 0x01, 0x61];
    let packet = roundtrip_test(&bytes);
    assert_eq!(packet.packet_id, 1);
    assert_eq!(packet.topic_filter.as_str(), "a");
}

#[test]
fn test_roundtrip_normal_packet() {
    // Normal packet: packet_id=1234, topic="sensors/temp"
    let bytes = [
        0xA2, 0x10, 0x12, 0x34, 0x00, 0x0C, 0x73, 0x65, 0x6E, 0x73, 0x6F, 0x72, 0x73, 0x2F,
        0x74, 0x65, 0x6D, 0x70,
    ];
    let packet = roundtrip_test(&bytes);
    assert_eq!(packet.packet_id, 0x1234);
    assert_eq!(packet.topic_filter.as_str(), "sensors/temp");
}

#[test]
fn test_roundtrip_max_packet_id() {
    // Max packet_id: packet_id=65535, topic="sensors/temp"
    let bytes = [
        0xA2, 0x10, 0xFF, 0xFF, 0x00, 0x0C, 0x73, 0x65, 0x6E, 0x73, 0x6F, 0x72, 0x73, 0x2F,
        0x74, 0x65, 0x6D, 0x70,
    ];
    let packet = roundtrip_test(&bytes);
    assert_eq!(packet.packet_id, 65535);
    assert_eq!(packet.topic_filter.as_str(), "sensors/temp");
}

#[test]
fn unsubscribe_test_roundtrip_unicode_packet() {
    // Unicode packet: packet_id=100, topic="ñáé"
    let bytes = [
        0xA2, 0x0A, 0x00, 0x64, 0x00, 0x06, 0xC3, 0xB1, 0xC3, 0xA1, 0xC3, 0xA9,
    ];
    let packet = roundtrip_test(&bytes);
    assert_eq!(packet.packet_id, 100);
    assert_eq!(packet.topic_filter.as_str(), "ñáé");
}

#[test]
fn test_roundtrip_wildcard_packet() {
    // Wildcard packet: packet_id=500, topic="sensors/#"
    let bytes = [
        0xA2, 0x0D, 0x01, 0xF4, 0x00, 0x09, 0x73, 0x65, 0x6E, 0x73, 0x6F, 0x72, 0x73, 0x2F,
        0x23,
    ];
    let packet = roundtrip_test(&bytes);
    assert_eq!(packet.packet_id, 500);
    assert_eq!(packet.topic_filter.as_str(), "sensors/#");
}

// ===== PROTOCOL COMPLIANCE TESTS =====
