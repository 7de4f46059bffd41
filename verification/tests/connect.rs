use picobroker_core::protocol::error::{PacketEncodingError, ProtocolError};
use picobroker_core::protocol::heapless::{HeaplessString, HeaplessVec};
use picobroker_core::protocol::qos::QoS;
use picobroker_core::topics::TopicName;
use picobroker_core::client::ClientId;
use picobroker_core::protocol::packets::{ConnectFlags, ConnectPacket, PacketEncoder};
use picobroker_core::protocol::utils::hex_to_bytes;
const MAX_TOPIC_NAME_LENGTH: usize = 30;
const MAX_PAYLOAD_SIZE: usize = 128;

fn roundtrip_test(bytes: &[u8]) -> ConnectPacket<MAX_TOPIC_NAME_LENGTH, MAX_PAYLOAD_SIZE> {
    let result = ConnectPacket::<MAX_TOPIC_NAME_LENGTH, MAX_PAYLOAD_SIZE>::decode(bytes);
    if let Err(ref e) = result {
        panic!("Failed to decode packet: {:?}", e);
    }
    assert!(result.is_ok(), "Failed to decode packet");
    let packet = result.unwrap();
    let mut buffer = [0u8; 512];
    let encode_result = packet.encode(&mut buffer);
    assert!(encode_result.is_ok(), "Failed to encode packet");
    let encoded_size = encode_result.unwrap();
    assert_eq!(encoded_size, bytes.len(), "Encoded size mismatch");
    assert_eq!(&buffer[..encoded_size], bytes, "Encoded bytes mismatch");
    packet
}

#[allow(dead_code)]
fn decode_test(
    bytes: &[u8],
) -> Result<ConnectPacket<MAX_TOPIC_NAME_LENGTH, MAX_PAYLOAD_SIZE>, ProtocolError> {
    ConnectPacket::<MAX_TOPIC_NAME_LENGTH, MAX_PAYLOAD_SIZE>::decode(bytes)
}

fn validate_size_of_struct<const A: usize, const B: usize>(expected: usize) {
    let actual = core::mem::size_of::<ConnectPacket<A, B>>();
    assert_eq!(
        actual, expected,
        "unexpected size for ConnectPacket<{}, {}> (actual {}, expected {})",
        A, B, actual, expected
    );
}

#[test]
fn test_connect_packet_struct_size() {
    validate_size_of_struct::<1, 1>(46);
    validate_size_of_struct::<1, 8>(52);
    validate_size_of_struct::<1, 16>(60);
    validate_size_of_struct::<1, 24>(68);
    validate_size_of_struct::<1, 32>(76);
    validate_size_of_struct::<1, 40>(84);
    validate_size_of_struct::<1, 48>(92);
    validate_size_of_struct::<1, 56>(100);
    validate_size_of_struct::<1, 64>(108);
    validate_size_of_struct::<1, 72>(116);
    validate_size_of_struct::<1, 80>(124);
    validate_size_of_struct::<1, 88>(132);
    validate_size_of_struct::<1, 96>(140);
    validate_size_of_struct::<1, 104>(148);
    validate_size_of_struct::<1, 112>(156);
    validate_size_of_struct::<1, 120>(164);
    validate_size_of_struct::<1, 128>(172);

    validate_size_of_struct::<1, 1>(46);
    validate_size_of_struct::<8, 1>(66);
    validate_size_of_struct::<16, 1>(90);
    validate_size_of_struct::<24, 1>(114);
    validate_size_of_struct::<32, 1>(138);
    validate_size_of_struct::<40, 1>(162);
    validate_size_of_struct::<48, 1>(186);
    validate_size_of_struct::<56, 1>(210);
    validate_size_of_struct::<64, 1>(234);
    validate_size_of_struct::<72, 1>(258);
    validate_size_of_struct::<80, 1>(282);
    validate_size_of_struct::<88, 1>(306);
    validate_size_of_struct::<96, 1>(330);
    validate_size_of_struct::<104, 1>(354);
    validate_size_of_struct::<112, 1>(378);
    validate_size_of_struct::<120, 1>(402);
    validate_size_of_struct::<128, 1>(426);

    validate_size_of_struct::<30, 128>(258);
    validate_size_of_struct::<32, 128>(264);
    validate_size_of_struct::<30, 256>(386);
    validate_size_of_struct::<32, 256>(392);
}

#[test]
fn test_connect_flag_clean_session_set() {
    let bytes =
        hex_to_bytes::<MAX_PAYLOAD_SIZE>("10 0F 00 04 4D 51 54 54 04 02 00 3C 00 03 61 62 63");
    let packet = roundtrip_test(&bytes);
    assert!(packet.connect_flags.contains(ConnectFlags::CLEAN_SESSION));
}

#[test]
fn test_connect_flag_clean_session_not_set() {
    let bytes =
        hex_to_bytes::<MAX_PAYLOAD_SIZE>("10 0F 00 04 4D 51 54 54 04 00 00 3C 00 03 61 62 63");
    let packet = roundtrip_test(&bytes);
    assert!(!packet.connect_flags.contains(ConnectFlags::CLEAN_SESSION));
}

#[test]
fn test_connect_flag_reserved_bit_set() {
    let bytes =
        hex_to_bytes::<MAX_PAYLOAD_SIZE>("10 0F 00 04 4D 51 54 54 04 03 00 3C 00 03 61 62 63");
    let result = ConnectPacket::<MAX_TOPIC_NAME_LENGTH, MAX_PAYLOAD_SIZE>::decode(&bytes);
    assert!(matches!(
        result,
        Err(ProtocolError::InvalidConnectFlags { flags: 3 })
    ));
}

#[test]
fn test_connect_flag_will_flag_set() {
    let bytes = hex_to_bytes::<MAX_PAYLOAD_SIZE>("10 20 00 04 4D 51 54 54 04 06 00 3C 00 03 61 62 63 00 06 77 69 6C 6C 74 70 00 07 77 69 6C 6C 6D 73 67");
    let packet = roundtrip_test(&bytes);
    assert!(packet.connect_flags.contains(ConnectFlags::WILL_FLAG));
}

#[test]
fn test_connect_flag_will_flag_not_set() {
    let bytes =
        hex_to_bytes::<MAX_PAYLOAD_SIZE>("10 0F 00 04 4D 51 54 54 04 02 00 3C 00 03 61 62 63");
    let packet = roundtrip_test(&bytes);
    assert!(!packet.connect_flags.contains(ConnectFlags::WILL_FLAG));
}

#[test]
fn test_connect_flag_will_qos_0() {
    let bytes = hex_to_bytes::<MAX_PAYLOAD_SIZE>("10 20 00 04 4D 51 54 54 04 06 00 3C 00 03 61 62 63 00 06 77 69 6C 6C 74 70 00 07 77 69 6C 6C 6D 73 67");
    let packet = roundtrip_test(&bytes);
    assert!(!packet.connect_flags.contains(ConnectFlags::WILL_QOS_1));
    assert!(!packet.connect_flags.contains(ConnectFlags::WILL_QOS_2));
}

#[test]
fn test_connect_flag_will_qos_1() {
    let bytes = hex_to_bytes::<MAX_PAYLOAD_SIZE>("10 20 00 04 4D 51 54 54 04 0E 00 3C 00 03 61 62 63 00 06 77 69 6C 6C 74 70 00 07 77 69 6C 6C 6D 73 67");
    let packet = roundtrip_test(&bytes);
    assert!(packet.connect_flags.contains(ConnectFlags::WILL_QOS_1));
}

#[test]
fn test_connect_flag_will_qos_2() {
    let bytes = hex_to_bytes::<MAX_PAYLOAD_SIZE>("10 20 00 04 4D 51 54 54 04 16 00 3C 00 03 61 62 63 00 06 77 69 6C 6C 74 70 00 07 77 69 6C 6C 6D 73 67");
    let packet = roundtrip_test(&bytes);
    assert!(packet.connect_flags.contains(ConnectFlags::WILL_QOS_2));
}

#[test]
fn test_connect_flag_will_retain_set() {
    let bytes = hex_to_bytes::<MAX_PAYLOAD_SIZE>("10 20 00 04 4D 51 54 54 04 26 00 3C 00 03 61 62 63 00 06 77 69 6C 6C 74 70 00 07 77 69 6C 6C 6D 73 67");
    let packet = roundtrip_test(&bytes);
    assert!(packet.connect_flags.contains(ConnectFlags::WILL_RETAIN));
}

#[test]
fn test_connect_flag_will_retain_not_set() {
    let bytes =
        hex_to_bytes::<MAX_PAYLOAD_SIZE>("10 0F 00 04 4D 51 54 54 04 02 00 3C 00 03 61 62 63");
    let packet = roundtrip_test(&bytes);
    assert!(!packet.connect_flags.contains(ConnectFlags::WILL_RETAIN));
}

#[test]
fn test_connect_flag_username_set() {
    let bytes = hex_to_bytes::<MAX_PAYLOAD_SIZE>(
        "10 16 00 04 4D 51 54 54 04 82 00 3C 00 03 61 62 63 00 05 75 73 65 72 31",
    );
    let packet = roundtrip_test(&bytes);
    assert!(packet.connect_flags.contains(ConnectFlags::USERNAME));
}

#[test]
fn test_connect_flag_username_not_set() {
    let bytes =
        hex_to_bytes::<MAX_PAYLOAD_SIZE>("10 0F 00 04 4D 51 54 54 04 02 00 3C 00 03 61 62 63");
    let packet = roundtrip_test(&bytes);
    assert!(!packet.connect_flags.contains(ConnectFlags::USERNAME));
}

#[test]
fn test_connect_flag_password_set() {
    let bytes = hex_to_bytes::<MAX_PAYLOAD_SIZE>("10 1C 00 04 4D 51 54 54 04 C2 00 3C 00 03 61 62 63 00 05 75 73 65 72 31 00 04 70 61 73 73");
    let packet = roundtrip_test(&bytes);
    assert!(packet.connect_flags.contains(ConnectFlags::PASSWORD));
}

#[test]
fn test_connect_flag_password_not_set() {
    let bytes =
        hex_to_bytes::<MAX_PAYLOAD_SIZE>("10 0F 00 04 4D 51 54 54 04 02 00 3C 00 03 61 62 63");
    let packet = roundtrip_test(&bytes);
    assert!(!packet.connect_flags.contains(ConnectFlags::PASSWORD));
}

#[test]
fn test_keep_alive_value_60() {
    let bytes =
        hex_to_bytes::<MAX_PAYLOAD_SIZE>("10 0F 00 04 4D 51 54 54 04 02 00 3C 00 03 61 62 63");
    let packet = roundtrip_test(&bytes);
    assert_eq!(packet.keep_alive, 60);
}

#[test]
fn test_keep_alive_value_zero() {
    let bytes =
        hex_to_bytes::<MAX_PAYLOAD_SIZE>("10 0F 00 04 4D 51 54 54 04 02 00 00 00 03 61 62 63");
    let packet = roundtrip_test(&bytes);
    assert_eq!(packet.keep_alive, 0);
}

#[test]
fn test_keep_alive_value_max() {
    let bytes =
        hex_to_bytes::<MAX_PAYLOAD_SIZE>("10 0F 00 04 4D 51 54 54 04 02 FF FF 00 03 61 62 63");
    let packet = roundtrip_test(&bytes);
    assert_eq!(packet.keep_alive, 65535);
}

#[test]
fn test_session_client_id_value_abc() {
    let bytes =
        hex_to_bytes::<MAX_PAYLOAD_SIZE>("10 0F 00 04 4D 51 54 54 04 02 00 3C 00 03 61 62 63");
    let packet = roundtrip_test(&bytes);
    assert_eq!(packet.client_id.as_str(), "abc");
}

#[test]
fn test_session_client_id_empty_with_clean_session() {
    let bytes = hex_to_bytes::<MAX_PAYLOAD_SIZE>("10 0C 00 04 4D 51 54 54 04 02 00 3C 00 00");
    let packet = roundtrip_test(&bytes);
    assert_eq!(packet.client_id.as_str(), "");
}

#[test]
fn test_session_client_id_exactly_max_length() {
    let bytes = hex_to_bytes::<MAX_PAYLOAD_SIZE>("10 23 00 04 4D 51 54 54 04 02 00 3C 00 17 61 61 61 61 61 61 61 61 61 61 61 61 61 61 61 61 61 61 61 61 61 61 61");
    let packet = roundtrip_test(&bytes);
    assert_eq!(packet.client_id.len(), 23);
}

#[test]
fn test_session_client_id_unicode() {
    let bytes = hex_to_bytes::<MAX_PAYLOAD_SIZE>(
        "10 15 00 04 4D 51 54 54 04 02 00 3C 00 09 E4 BD A0 E5 A5 BD E4 B8 96",
    );
    let packet = roundtrip_test(&bytes);
    assert_eq!(packet.client_id.as_str(), "你好世");
}

#[test]
fn test_will_topic_valid() {
    let bytes = hex_to_bytes::<MAX_PAYLOAD_SIZE>("10 20 00 04 4D 51 54 54 04 06 00 3C 00 03 61 62 63 00 06 77 69 6C 6C 74 70 00 07 77 69 6C 6C 6D 73 67");
    let packet = roundtrip_test(&bytes);
    assert_eq!(
        packet.will_topic.as_ref().map(|t| t.as_str()),
        Some("willtp")
    );
}

#[test]
fn test_will_payload_valid() {
    let bytes = hex_to_bytes::<MAX_PAYLOAD_SIZE>("10 20 00 04 4D 51 54 54 04 06 00 3C 00 03 61 62 63 00 06 77 69 6C 6C 74 70 00 07 77 69 6C 6C 6D 73 67");
    let packet = roundtrip_test(&bytes);
    assert_eq!(
        packet.will_payload.as_ref().map(|p| p.as_slice()),
        Some(b"willmsg".as_ref())
    );
}

#[test]
fn test_will_payload_empty() {
    let bytes = hex_to_bytes::<MAX_PAYLOAD_SIZE>(
        "10 19 00 04 4D 51 54 54 04 06 00 3C 00 03 61 62 63 00 06 77 69 6C 6C 74 70 00 00",
    );
    let packet = roundtrip_test(&bytes);
    assert_eq!(packet.will_payload.as_ref().unwrap().len(), 0);
}

#[test]
fn test_username_value_user1() {
    let bytes = hex_to_bytes::<MAX_PAYLOAD_SIZE>(
        "10 16 00 04 4D 51 54 54 04 82 00 3C 00 03 61 62 63 00 05 75 73 65 72 31",
    );
    let packet = roundtrip_test(&bytes);
    assert_eq!(packet.username.as_ref().map(|s| s.as_str()), Some("user1"));
}

#[test]
fn test_username_empty() {
    let bytes = hex_to_bytes::<MAX_PAYLOAD_SIZE>(
        "10 11 00 04 4D 51 54 54 04 82 00 3C 00 03 61 62 63 00 00",
    );
    let packet = roundtrip_test(&bytes);
    assert_eq!(packet.username.as_ref().unwrap().len(), 0);
}

#[test]
fn test_username_exactly_max_length() {
    let bytes = hex_to_bytes::<MAX_PAYLOAD_SIZE>("10 2F 00 04 4D 51 54 54 04 82 00 3C 00 03 61 62 63 00 1E 75 75 75 75 75 75 75 75 75 75 75 75 75 75 75 75 75 75 75 75 75 75 75 75 75 75 75 75 75 75");
    let packet = roundtrip_test(&bytes);
    assert_eq!(packet.username.as_ref().unwrap().len(), 30);
}

#[test]
fn test_username_unicode() {
    let bytes = hex_to_bytes::<MAX_PAYLOAD_SIZE>(
        "10 17 00 04 4D 51 54 54 04 82 00 3C 00 03 61 62 63 00 06 C3 B1 C3 A1 C3 A9",
    );
    let packet = roundtrip_test(&bytes);
    assert_eq!(packet.username.as_ref().unwrap().as_str(), "ñáé");
}

#[test]
fn test_password_value_pass1() {
    let bytes = hex_to_bytes::<MAX_PAYLOAD_SIZE>("10 1D 00 04 4D 51 54 54 04 C2 00 3C 00 03 61 62 63 00 05 75 73 65 72 31 00 05 70 61 73 73 31");
    let packet = roundtrip_test(&bytes);
    assert_eq!(
        packet.password.as_ref().map(|p| p.as_slice()),
        Some(b"pass1".as_ref())
    );
}

#[test]
fn test_password_empty() {
    let bytes = hex_to_bytes::<MAX_PAYLOAD_SIZE>(
        "10 18 00 04 4D 51 54 54 04 C2 00 3C 00 03 61 62 63 00 05 75 73 65 72 31 00 00",
    );
    let packet = roundtrip_test(&bytes);
    assert_eq!(packet.password.as_ref().unwrap().len(), 0);
}

#[test]
fn test_password_exactly_max_length() {
    let bytes = hex_to_bytes::<MAX_PAYLOAD_SIZE>("10 36 00 04 4D 51 54 54 04 C2 00 3C 00 03 61 62 63 00 05 75 73 65 72 31 00 1E 70 70 70 70 70 70 70 70 70 70 70 70 70 70 70 70 70 70 70 70 70 70 70 70 70 70 70 70 70 70");
    let packet = roundtrip_test(&bytes);
    assert_eq!(packet.password.as_ref().unwrap().len(), 30);
}

#[test]
fn test_password_binary_data() {
    let bytes = hex_to_bytes::<MAX_PAYLOAD_SIZE>("10 20 00 04 4D 51 54 54 04 C2 00 3C 00 03 61 62 63 00 05 75 73 65 72 31 00 08 00 01 FF FE 00 FF 01 02");
    let packet = roundtrip_test(&bytes);
    assert_eq!(
        packet.password.as_ref().unwrap().as_slice(),
        &[0x00, 0x01, 0xFF, 0xFE, 0x00, 0xFF, 0x01, 0x02]
    );
}
