use picobroker_core::broker::PicoBroker;
use picobroker_core::client::ClientId;
use picobroker_core::error::BrokerError;
use picobroker_core::protocol::heapless::HeaplessVec;
use picobroker_core::protocol::packets::{
    ConnAckPacket, ConnectFlags, ConnectPacket, ConnectReturnCode, Packet, PingReqPacket,
    PingRespPacket, PubAckPacket, PublishPacket, SubAckPacket, SubscribePacket,
};
use picobroker_core::protocol::qos::QoS;
use picobroker_core::topics::TopicName;

type Broker = PicoBroker<16, 32, 4, 3, 4, 4>;

fn publish(topic: &str, payload: &[u8], qos: QoS, packet_id: Option<u16>) -> Packet<16, 32> {
    let mut p = HeaplessVec::new();
    p.extend_from_slice(payload).unwrap();
    Packet::Publish(PublishPacket {
        topic_name: TopicName::try_from(topic).unwrap(),
        packet_id,
        payload: p,
        qos,
        dup: false,
        retain: false,
    })
}

fn subscribe(filter: &str, packet_id: u16) -> Packet<16, 32> {
    Packet::Subscribe(SubscribePacket {
        packet_id,
        topic_filter: TopicName::try_from(filter).unwrap(),
        requested_qos: QoS::AtLeastOnce,
    })
}

#[test]
fn publish_reaches_matching_subscribers_only() {
    let mut b = Broker::new();
    for id in 1..=3 {
        b.register_new_session(id, 60, 0).unwrap();
    }
    b.queue_packet_received_from_client(2, subscribe("a/+", 7), 1).unwrap();
    b.queue_packet_received_from_client(3, subscribe("b/#", 8), 1).unwrap();
    b.process_all_session_packets().unwrap();
    assert_eq!(
        b.dequeue_packet_to_send_to_client(2),
        Ok(Some(Packet::SubAck(SubAckPacket { packet_id: 7, granted_qos: QoS::AtLeastOnce })))
    );
    assert_eq!(
        b.dequeue_packet_to_send_to_client(3),
        Ok(Some(Packet::SubAck(SubAckPacket { packet_id: 8, granted_qos: QoS::AtLeastOnce })))
    );

    let msg = publish("a/x", b"hi", QoS::AtMostOnce, None);
    b.queue_packet_received_from_client(1, msg, 2).unwrap();
    b.process_all_session_packets().unwrap();
    assert_eq!(b.dequeue_packet_to_send_to_client(2), Ok(Some(msg)));
    assert_eq!(b.dequeue_packet_to_send_to_client(2), Ok(None));
    assert_eq!(b.dequeue_packet_to_send_to_client(3), Ok(None));
    assert_eq!(b.dequeue_packet_to_send_to_client(1), Ok(None));
}

#[test]
fn qos1_publish_is_acknowledged() {
    let mut b = Broker::new();
    b.register_new_session(1, 60, 0).unwrap();
    b.queue_packet_received_from_client(1, publish("t", b"", QoS::AtLeastOnce, Some(9)), 0)
        .unwrap();
    b.process_all_session_packets().unwrap();
    assert_eq!(
        b.dequeue_packet_to_send_to_client(1),
        Ok(Some(Packet::PubAck(PubAckPacket { packet_id: 9 })))
    );
}

#[test]
fn connect_is_accepted_and_ping_answered() {
    let mut b = Broker::new();
    b.register_new_session(1, 60, 0).unwrap();
    let connect = Packet::Connect(ConnectPacket {
        connect_flags: ConnectFlags::empty(),
        keep_alive: 30,
        client_id: ClientId::try_from("abc").unwrap(),
        will_topic: None,
        will_payload: None,
        username: None,
        password: None,
    });
    b.queue_packet_received_from_client(1, connect, 0).unwrap();
    b.queue_packet_received_from_client(1, Packet::PingReq(PingReqPacket), 0).unwrap();
    b.process_all_session_packets().unwrap();
    assert_eq!(
        b.dequeue_packet_to_send_to_client(1),
        Ok(Some(Packet::ConnAck(ConnAckPacket {
            session_present: false,
            return_code: ConnectReturnCode::Accepted
        })))
    );
    assert_eq!(
        b.dequeue_packet_to_send_to_client(1),
        Ok(Some(Packet::PingResp(PingRespPacket)))
    );
    assert!(b.get_sessions_with_pending_packets().is_empty());
}

#[test]
fn registration_errors() {
    let mut b = Broker::new();
    b.register_new_session(1, 60, 0).unwrap();
    assert_eq!(
        b.register_new_session(1, 60, 0),
        Err(BrokerError::SessionAlreadyExists { session_id: 1 })
    );
    b.register_new_session(2, 60, 0).unwrap();
    b.register_new_session(3, 60, 0).unwrap();
    assert_eq!(
        b.register_new_session(4, 60, 0),
        Err(BrokerError::MaxSessionsReached { current: 3, max: 3 })
    );
    assert_eq!(
        b.queue_packet_received_from_client(9, Packet::PingReq(PingReqPacket), 0),
        Err(BrokerError::SessionNotFound { session_id: 9 })
    );
}

#[test]
fn full_receive_queue_refuses_packets() {
    let mut b = Broker::new();
    b.register_new_session(1, 60, 0).unwrap();
    for _ in 0..4 {
        b.queue_packet_received_from_client(1, Packet::PingReq(PingReqPacket), 0).unwrap();
    }
    assert_eq!(
        b.queue_packet_received_from_client(1, Packet::PingReq(PingReqPacket), 0),
        Err(BrokerError::SessionQueueFull { session_id: 1, queue_size: 4 })
    );
}

#[test]
fn disconnected_and_expired_sessions_are_reported() {
    let mut b = Broker::new();
    b.register_new_session(1, 10, 0).unwrap();
    b.register_new_session(2, 60, 0).unwrap();
    b.mark_session_disconnected(2).unwrap();
    assert_eq!(b.get_disconnected_sessions(), [Some(2), None, None]);
    assert_eq!(b.get_expired_sessions(15_000_000_000), [None, None, None]);
    assert_eq!(b.get_expired_sessions(15_000_000_001), [Some(1), None, None]);
    assert_eq!(b.get_expired_sessions(90_000_000_000), [Some(1), None, None]);
    assert_eq!(b.get_expired_sessions(90_000_000_001), [Some(1), Some(2), None]);
    assert!(b.remove_session(2));
    assert!(!b.remove_session(2));
    assert_eq!(b.get_all_sessions(), [Some(1), None, None]);
}

#[test]
fn handled_packets_are_answered_and_taken_in_order() {
    let mut b = Broker::new();
    b.register_new_session(1, 60, 0).unwrap();
    b.register_new_session(2, 60, 0).unwrap();
    assert_eq!(b.handle_client_packet(2, subscribe("x", 4), 5), Ok(()));
    assert_eq!(b.handle_client_packet(1, Packet::PingReq(PingReqPacket), 5), Ok(()));
    let msg = publish("x", b"v", QoS::AtMostOnce, None);
    assert_eq!(b.handle_client_packet(1, msg, 6), Ok(()));
    assert_eq!(b.take_outgoing(1), vec![Packet::PingResp(PingRespPacket)]);
    assert_eq!(
        b.take_outgoing(2),
        vec![
            Packet::SubAck(SubAckPacket { packet_id: 4, granted_qos: QoS::AtLeastOnce }),
            msg
        ]
    );
    assert!(b.take_outgoing(2).is_empty());
    assert!(b.take_outgoing(7).is_empty());
}

#[test]
fn a_failed_packet_disconnects_its_session() {
    let mut b = Broker::new();
    assert_eq!(
        b.handle_client_packet(5, Packet::PingReq(PingReqPacket), 0),
        Err(BrokerError::SessionNotFound { session_id: 5 })
    );
    b.register_new_session(1, 60, 0).unwrap();
    for _ in 0..4 {
        b.queue_packet_received_from_client(1, Packet::PingReq(PingReqPacket), 0).unwrap();
    }
    assert_eq!(
        b.handle_client_packet(1, Packet::PingReq(PingReqPacket), 0),
        Err(BrokerError::SessionQueueFull { session_id: 1, queue_size: 4 })
    );
    assert_eq!(b.get_disconnected_sessions(), [Some(1), None, None]);
}

#[test]
fn session_expires_after_one_and_a_half_keep_alives_in_nanoseconds() {
    let s = picobroker_core::session::Session::<30, 128, 4>::new(1, 60, 0);
    assert!(!s.is_expired(0));
    assert!(!s.is_expired(90_000_000_000));
    assert!(s.is_expired(90_000_000_001));
    let later = picobroker_core::session::Session::<30, 128, 4>::new(2, 60, 100);
    assert!(!later.is_expired(50));
}
