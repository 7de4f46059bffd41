use core::mem::size_of;
use picobroker_core::protocol::packets::{PacketEncoder, PingReqPacket};
const MAX_PAYLOAD_SIZE: usize = 128;

#[test]
fn test_pingreq_packet_struct_size() {
    assert_eq!(size_of::<PingReqPacket>(), 0);
}

#[test]
fn test_pingreq_packet_roundtrip() {
    assert_eq!(roundtrip_test(&[0xC0, 0x00]), PingReqPacket);
}

fn roundtrip_test(bytes: &[u8]) -> PingReqPacket {
    let result = PingReqPacket::decode(bytes);
    assert!(result.is_ok(), "Failed to decode packet");
    let packet = result.unwrap();
    let mut buffer = [0u8; MAX_PAYLOAD_SIZE];
    let encode_result = packet.encode(&mut buffer);
    assert!(encode_result.is_ok(), "Failed to encode packet");
    let encoded_size = encode_result.unwrap();
    assert_eq!(encoded_size, bytes.len(), "Encoded size mismatch");
    assert_eq!(&buffer[..encoded_size], bytes, "Encoded bytes mismatch");
    packet
}
