use picobroker_core::client::ClientId;
use picobroker_core::protocol::packets::{Packet, PingReqPacket};
use picobroker_core::server::message::{BrokerToClientMessage, ClientToBrokerMessage};
use picobroker_core::server::session::ClientSession;

#[test]
fn test_session_creation() {
    let id = ClientId::try_from("test_client").unwrap();
    let session = ClientSession::<8, 16, 64, 256>::new(id.clone());

    assert_eq!(session.client_id, id);
    assert!(!session.is_connected);
}

#[test]
fn test_session_connect_disconnect() {
    let id = ClientId::try_from("test_client").unwrap();
    let mut session = ClientSession::<8, 16, 64, 256>::new(id);

    assert!(!session.is_connected);
    session.connect();
    assert!(session.is_connected);
    session.disconnect();
    assert!(!session.is_connected);
}

#[test]
fn test_client_to_broker_queue() {
    let id = ClientId::try_from("test_client").unwrap();
    let mut session = ClientSession::<8, 16, 64, 256>::new(id);

    let ping = Packet::PingReq(PingReqPacket);
    let msg = ClientToBrokerMessage::Packet(ping);

    session.client_to_broker.enqueue(msg).unwrap();

    let received = session.client_to_broker.dequeue().unwrap();
    assert!(matches!(received, ClientToBrokerMessage::Packet(_)));
}

#[test]
fn test_broker_to_client_queue() {
    let id = ClientId::try_from("test_client").unwrap();
    let mut session = ClientSession::<8, 16, 64, 256>::new(id);

    let ping = Packet::PingReq(PingReqPacket);
    let msg = BrokerToClientMessage::SendPacket(ping);

    session.broker_to_client.enqueue(msg).unwrap();

    let received = session.broker_to_client.dequeue().unwrap();
    assert!(matches!(received, BrokerToClientMessage::SendPacket(_)));
}

#[test]
fn test_queue_operations() {
    let id = ClientId::try_from("test_client").unwrap();
    let mut session = ClientSession::<4, 16, 64, 256>::new(id);

    let ping = Packet::PingReq(PingReqPacket);
    let msg = ClientToBrokerMessage::Packet(ping);
    assert!(session.client_to_broker.enqueue(msg).is_ok());

    let received = session.client_to_broker.dequeue();
    assert!(received.is_some());
    assert!(matches!(received.unwrap(), ClientToBrokerMessage::Packet(_)));

    assert!(session.client_to_broker.dequeue().is_none());
}
