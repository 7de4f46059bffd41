use picobroker_core::protocol::error::{decimal_text, ProtocolError};

#[test]
fn decimal_text_writes_numbers() {
    assert_eq!(decimal_text(0), "0");
    assert_eq!(decimal_text(7), "7");
    assert_eq!(decimal_text(10), "10");
    assert_eq!(decimal_text(1234567890123), "1234567890123");
    assert_eq!(decimal_text(u64::MAX), u64::MAX.to_string());
}

#[test]
fn protocol_error_messages() {
    assert_eq!(
        ProtocolError::BufferTooSmall { buffer_size: 12 }.message(),
        "Buffer too small for packet: size 12"
    );
    assert_eq!(ProtocolError::ClientIdEmpty.message(), "Client ID is empty in CONNECT packet");
    assert_eq!(
        ProtocolError::ClientIdLengthExceeded { max_length: 23, actual_length: 30 }.message(),
        "Client ID length exceeded: length 30, max 23"
    );
    assert_eq!(
        ProtocolError::InvalidPacketLength { expected: 4, actual: 2 }.message(),
        "Invalid packet length: expected 4, got 2"
    );
    assert_eq!(
        ProtocolError::PayloadTooLarge { max_size: 10, actual_size: 300 }.message(),
        "Payload too large: size 300, max 10"
    );
    assert_eq!(ProtocolError::InvalidQosLevel { level: 3 }.message(), "Invalid QoS level: 3");
    assert_eq!(ProtocolError::TopicEmpty.message(), "Topic name is empty");
    assert_eq!(
        ProtocolError::UnsupportedProtocolLevel { level: 5 }.message(),
        "Unsupported protocol level in CONNECT packet: 5"
    );
}
