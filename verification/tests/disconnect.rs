use picobroker_core::protocol::packets::DisconnectPacket;
#[test]
fn test_default() {
    let disconnect = DisconnectPacket::default();
    assert_eq!(disconnect, DisconnectPacket);
}
