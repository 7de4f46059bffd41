use picobroker_core::protocol::error::ProtocolError;
use picobroker_core::protocol::heapless::HeaplessVec;
use picobroker_core::protocol::packets::{Packet, PacketEncoder, PingReqPacket, PublishPacket};
use picobroker_core::protocol::qos::QoS;
use picobroker_core::topics::TopicName;
use picobroker_core::server::buffer_manager::{BufferManager, SessionReadBuffer};

#[test]
fn read_buffer_append_stops_when_full() {
    let mut buf = SessionReadBuffer::<4>::new(9);
    buf.append(&[1, 2, 3]);
    assert_eq!(buf.as_slice(), &[1, 2, 3]);
    buf.append(&[4, 5, 6]);
    assert_eq!(buf.as_slice(), &[1, 2, 3, 4]);
    assert_eq!(buf.len(), 4);
    assert_eq!(buf.session_id, 9);
    assert!(buf.push(7).is_err());
}

#[test]
fn read_buffer_remove_and_clear() {
    let mut buf = SessionReadBuffer::<8>::new(1);
    buf.append(&[10, 20, 30]);
    buf.remove(1);
    assert_eq!(buf.as_slice(), &[10, 30]);
    buf.remove(5);
    assert_eq!(buf.as_slice(), &[10, 30]);
    assert!(buf.push(40).is_ok());
    assert_eq!(buf.as_slice(), &[10, 30, 40]);
    buf.clear();
    assert!(buf.is_empty());
}

#[test]
fn remaining_space_makes_a_buffer() {
    let mut mgr = BufferManager::<16, 2>::new();
    assert_eq!(mgr.get_remaining_space(5), 16);
    mgr.get_buffer_mut(5).append(&[1, 2, 3]);
    assert_eq!(mgr.get_remaining_space(5), 13);
    assert!(mgr.remove_session(5));
    assert!(!mgr.remove_session(5));
    assert_eq!(mgr.get_remaining_space(5), 16);
}

#[test]
fn full_manager_hands_out_the_last_buffer() {
    let mut mgr = BufferManager::<16, 1>::new();
    mgr.get_buffer_mut(1).append(&[7, 7]);
    let other = mgr.get_buffer_mut(2);
    assert_eq!(other.session_id, 1);
    assert_eq!(other.as_slice(), &[7, 7]);
}

#[test]
fn decode_waits_for_a_whole_packet() {
    let mut mgr = BufferManager::<16, 2>::new();
    mgr.get_buffer_mut(1).append(&[0xC0]);
    assert_eq!(mgr.try_decode_packet::<8>(1), Ok(None));
    mgr.get_buffer_mut(1).append(&[0x00, 0xC0]);
    assert_eq!(mgr.try_decode_packet::<8>(1), Ok(Some(Packet::PingReq(PingReqPacket))));
    assert_eq!(mgr.get_buffer_mut(1).as_slice(), &[0xC0]);
    mgr.get_buffer_mut(1).append(&[0x00]);
    assert_eq!(mgr.try_decode_packet::<8>(1), Ok(Some(Packet::PingReq(PingReqPacket))));
    assert!(mgr.get_buffer_mut(1).is_empty());
}

#[test]
fn decode_reports_a_bad_packet_and_keeps_it() {
    let mut mgr = BufferManager::<16, 2>::new();
    mgr.get_buffer_mut(3).append(&[0x00, 0x00]);
    assert_eq!(
        mgr.try_decode_packet::<8>(3),
        Err(ProtocolError::InvalidPacketType { packet_type: 0 })
    );
    assert_eq!(mgr.get_buffer_mut(3).as_slice(), &[0x00, 0x00]);
}

#[test]
fn decode_reports_a_bad_remaining_length() {
    let mut mgr = BufferManager::<16, 2>::new();
    mgr.get_buffer_mut(3).append(&[0x30, 0xFF, 0xFF, 0xFF, 0xFF, 0x01]);
    assert!(matches!(
        mgr.try_decode_packet::<8>(3),
        Err(ProtocolError::InvalidPacketLength { .. })
    ));
}

#[test]
fn decode_takes_a_publish() {
    let mut mgr = BufferManager::<32, 2>::new();
    mgr.get_buffer_mut(1).append(&[0x30, 0x05, 0x00, 0x01, 0x61, 0x68, 0x69]);
    match mgr.try_decode_packet::<8>(1) {
        Ok(Some(Packet::Publish(p))) => {
            assert_eq!(p.topic_name.as_str(), "a");
            assert_eq!(p.payload.as_slice(), b"hi");
        }
        other => panic!("unexpected {:?}", other),
    }
    assert!(mgr.get_buffer_mut(1).is_empty());
}

#[test]
fn written_packet_reads_back_with_what_follows() {
    let mut payload = HeaplessVec::new();
    payload.extend_from_slice(b"42").unwrap();
    let packet: Packet<8, 32> = Packet::Publish(PublishPacket {
        topic_name: TopicName::try_from("t/1").unwrap(),
        packet_id: Some(3),
        payload,
        qos: QoS::AtLeastOnce,
        dup: false,
        retain: false,
    });
    let mut bytes = [0u8; 32];
    let n = packet.encode(&mut bytes).unwrap();

    let mut mgr = BufferManager::<32, 1>::new();
    mgr.get_buffer_mut(1).append(&bytes[..n]);
    mgr.get_buffer_mut(1).append(&[0xC0]);
    assert_eq!(mgr.try_decode_packet::<8>(1), Ok(Some(packet)));
    assert_eq!(mgr.get_buffer_mut(1).as_slice(), &[0xC0]);
}
