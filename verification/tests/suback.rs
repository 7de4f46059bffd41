use picobroker_core::protocol::error::{PacketEncodingError, ProtocolError};
use picobroker_core::protocol::heapless::{HeaplessString, HeaplessVec};
use picobroker_core::protocol::qos::QoS;
use picobroker_core::topics::TopicName;
use core::mem::size_of;
use picobroker_core::protocol::packets::{PacketEncoder, SubAckPacket};
const MAX_PAYLOAD_SIZE: usize = 128;

// ===== HELPER FUNCTIONS =====

fn roundtrip_test(bytes: &[u8]) -> SubAckPacket {
    let result = SubAckPacket::decode(bytes);
    assert!(
        result.is_ok(),
        "Failed to decode packet: {:?}",
        result.err()
    );
    let packet = result.unwrap();
    let mut buffer = [0u8; MAX_PAYLOAD_SIZE];
    let encode_result = packet.encode(&mut buffer);
    assert!(
        encode_result.is_ok(),
        "Failed to encode packet: {:?}",
        encode_result.err()
    );
    let encoded_size = encode_result.unwrap();
    assert_eq!(encoded_size, bytes.len(), "Encoded size mismatch");
    assert_eq!(&buffer[..encoded_size], bytes, "Encoded bytes mismatch");
    packet
}

#[allow(dead_code)]
fn decode_test(bytes: &[u8]) -> Result<SubAckPacket, ProtocolError> {
    SubAckPacket::decode(bytes)
}

// ===== STRUCT SIZE TEST =====

#[test]
fn test_suback_packet_struct_size() {
    // Should be 4 bytes: 2 for packet_id + 2 for alignment padding
    assert_eq!(core::mem::size_of::<SubAckPacket>(), 4);
}

// ===== PACKET ID FIELD TESTS =====

#[test]
fn test_packet_id_zero() {
    let bytes = [0x90, 0x03, 0x00, 0x00, 0x00];
    let packet = roundtrip_test(&bytes);
    assert_eq!(packet.packet_id, 0);
}

#[test]
fn suback_test_packet_id_one() {
    let bytes = [0x90, 0x03, 0x00, 0x01, 0x00];
    let packet = roundtrip_test(&bytes);
    assert_eq!(packet.packet_id, 1);
}

#[test]
fn suback_test_packet_id_max() {
    let bytes = [0x90, 0x03, 0xFF, 0xFF, 0x01];
    let packet = roundtrip_test(&bytes);
    assert_eq!(packet.packet_id, 65535);
}

// ===== GRANTED QoS FIELD TESTS =====

#[test]
fn test_granted_qos_0() {
    let bytes = [0x90, 0x03, 0x00, 0x01, 0x00];
    let packet = roundtrip_test(&bytes);
    assert_eq!(packet.granted_qos, QoS::AtMostOnce);
}

#[test]
fn test_granted_qos_1() {
    let bytes = [0x90, 0x03, 0x00, 0x01, 0x01];
    let packet = roundtrip_test(&bytes);
    assert_eq!(packet.granted_qos, QoS::AtLeastOnce);
}

#[test]
fn test_granted_qos_2() {
    let bytes = [0x90, 0x03, 0x00, 0x01, 0x02];
    let packet = roundtrip_test(&bytes);
    assert_eq!(packet.granted_qos, QoS::ExactlyOnce);
}

// ===== COMPLETE PACKET ROUNDTRIP TESTS =====

#[test]
fn test_roundtrip_qos0_packet_id_1() {
    let bytes = [0x90, 0x03, 0x00, 0x01, 0x00];
    let packet = roundtrip_test(&bytes);
    assert_eq!(packet.packet_id, 1);
    assert_eq!(packet.granted_qos, QoS::AtMostOnce);
}

#[test]
fn test_roundtrip_qos1_packet_id_1234() {
    let bytes = [0x90, 0x03, 0x12, 0x34, 0x01];
    let packet = roundtrip_test(&bytes);
    assert_eq!(packet.packet_id, 0x1234);
    assert_eq!(packet.granted_qos, QoS::AtLeastOnce);
}

#[test]
fn test_roundtrip_qos2_packet_id_65535() {
    let bytes = [0x90, 0x03, 0xFF, 0xFF, 0x02];
    let packet = roundtrip_test(&bytes);
    assert_eq!(packet.packet_id, 65535);
    assert_eq!(packet.granted_qos, QoS::ExactlyOnce);
}

// ===== PROTOCOL COMPLIANCE TESTS =====
