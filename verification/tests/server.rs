use picobroker_core::error::BrokerError;
use picobroker_core::protocol::packets::{Packet, PingRespPacket};
use picobroker_core::server::PicoBrokerServer;
use picobroker_core::traits::{DummyTimeSource, NetworkError};

type Server = PicoBrokerServer<DummyTimeSource, (), (), Vec<u8>, 16, 64, 4, 2, 4, 4>;

fn server() -> Server {
    PicoBrokerServer::new(DummyTimeSource, (), ())
}

#[test]
fn accepted_connection_becomes_a_session() {
    let mut s = server();
    assert_eq!(s.register_connection(vec![1]).ok(), Some(0));
    assert_eq!(s.get_all_sessions(), [Some(0), None]);
    assert_eq!(s.get_stream_mut(0).map(|st| st.clone()), Some(vec![1]));
    match s.register_connection(vec![2]) {
        Err((stream, e)) => {
            assert_eq!(stream, vec![2]);
            assert_eq!(e, BrokerError::SessionAlreadyExists { session_id: 0 });
        }
        Ok(_) => panic!("a second session with the same identifier was accepted"),
    }
}

#[test]
fn received_ping_is_answered() {
    let mut s = server();
    s.register_connection(vec![]).unwrap();
    assert_eq!(s.get_remaining_space(0), 64);
    s.append_received(0, &[0xC0]);
    assert_eq!(s.process_received_data(0), Ok(()));
    assert_eq!(s.dequeue_packet_to_send_to_client(0), Ok(None));
    s.append_received(0, &[0x00]);
    assert_eq!(s.get_remaining_space(0), 62);
    assert_eq!(s.process_received_data(0), Ok(()));
    assert_eq!(s.get_remaining_space(0), 64);
    assert_eq!(s.process_session_messages(), Ok(()));
    assert_eq!(
        s.dequeue_packet_to_send_to_client(0),
        Ok(Some(Packet::PingResp(PingRespPacket)))
    );
    assert_eq!(s.dequeue_packet_to_send_to_client(0), Ok(None));
}

#[test]
fn received_bytes_for_an_unknown_session_are_refused() {
    let mut s = server();
    s.append_received(5, &[0xC0, 0x00]);
    assert_eq!(
        s.process_received_data(5),
        Err(BrokerError::SessionNotFound { session_id: 5 })
    );
}

#[test]
fn a_full_buffer_is_cleared_before_reading() {
    let mut s = server();
    s.register_connection(vec![]).unwrap();
    s.append_received(0, &[0x30; 70]);
    assert_eq!(s.get_remaining_space(0), 0);
    assert_eq!(s.ensure_buffer_space(0), Ok(()));
    assert_eq!(s.get_remaining_space(0), 64);
    s.append_received(0, &[0x30]);
    assert_eq!(s.ensure_buffer_space(0), Ok(()));
    assert_eq!(s.get_remaining_space(0), 63);
}

#[test]
fn a_closed_connection_disconnects_and_is_cleaned_up() {
    let mut s = server();
    s.register_connection(vec![]).unwrap();
    assert_eq!(s.handle_read_error(0, NetworkError::ReadWouldBlock), Ok(()));
    assert_eq!(s.get_all_sessions(), [Some(0), None]);
    assert_eq!(
        s.handle_read_error(0, NetworkError::ConnectionClosed),
        Err(BrokerError::SessionDisconnected { session_id: 0 })
    );
    s.cleanup_disconnected();
    assert_eq!(s.get_all_sessions(), [None, None]);
    assert_eq!(s.get_stream_mut(0), None);
}

#[test]
fn write_results_decide_what_follows() {
    let mut s = server();
    s.register_connection(vec![]).unwrap();
    assert_eq!(s.handle_write_result(0, 2, Ok(3)), Ok(5));
    assert_eq!(s.handle_write_result(0, 2, Err(NetworkError::WriteWouldBlock)), Ok(2));
    assert_eq!(s.handle_flush_result(0, Ok(())), Ok(()));
    assert_eq!(
        s.handle_write_result(0, 2, Ok(0)),
        Err(BrokerError::SessionDisconnected { session_id: 0 })
    );
    assert_eq!(
        s.handle_flush_result(0, Err(NetworkError::FlushFailed)),
        Err(BrokerError::Network(NetworkError::FlushFailed))
    );
    s.remove_session(0);
    assert_eq!(s.get_all_sessions(), [None, None]);
    assert_eq!(s.drop_connection(0), BrokerError::SessionDisconnected { session_id: 0 });
}
