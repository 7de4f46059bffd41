//! Errors raised while encoding or decoding MQTT packets.
use vstd::prelude::*;
use vstd::string::*;

verus! {

/// An error raised while encoding or decoding a packet.
#[derive(Debug, Clone, Copy, PartialEq, Eq)]
pub enum ProtocolError {
    /// Buffer too small for packet
    BufferTooSmall { buffer_size: usize },
    /// Client identifier is empty in CONNECT, which is not allowed in persistent session
    ClientIdEmpty,
    /// Client identifier length exceeded maximum allowed length
    ClientIdLengthExceeded { max_length: usize, actual_length: usize },
    /// Incomplete packet (not enough data)
    IncompletePacket { available: usize },
    /// Invalid connect flags in CONNECT
    InvalidConnectFlags { flags: u8 },
    /// Invalid connect return code in CONNACK
    InvalidConnectReturnCode { return_code: u8 },
    /// Packet length does not match expected length
    InvalidPacketLength { expected: usize, actual: usize },
    /// Invalid packet type
    InvalidPacketType { packet_type: u8 },
    /// Invalid protocol name in CONNECT
    InvalidProtocolName,
    /// Invalid session present flag in CONNACK
    InvalidSessionPresentFlag { flag: u8 },
    /// Invalid UTF-8 string
    InvalidUtf8String,
    /// Missing Packet Identifier where one is required
    MissingPacketId,
    /// Password length exceeded maximum allowed length
    PasswordLengthExceeded { max_length: usize, actual_length: usize },
    /// Payload size exceeded maximum allowed size
    PayloadTooLarge { max_size: usize, actual_size: usize },
    /// Invalid QoS level
    InvalidQosLevel { level: u8 },
    /// Topic name is empty
    TopicEmpty,
    /// Topic name length exceeded maximum allowed length
    TopicNameLengthExceeded { max_length: usize, actual_length: usize },
    /// Unsupported protocol level in CONNECT
    UnsupportedProtocolLevel { level: u8 },
    /// Username length exceeded maximum allowed length
    UsernameLengthExceeded { max_length: usize, actual_length: usize },
}

/// The single error of the SUBSCRIBE body codec.
#[derive(Debug, Clone, Copy, PartialEq, Eq)]
pub enum PacketEncodingError {
    /// The body could not be encoded or decoded.
    Other,
}

/// The decimal digits, in order.
pub open spec fn decimal_digits() -> Seq<char> {
    seq!['0', '1', '2', '3', '4', '5', '6', '7', '8', '9']
}

/// The decimal form of `n`, most significant digit first, without leading zeros.
pub open spec fn decimal(n: nat) -> Seq<char>
    decreases n,
{
    if n < 10 {
        seq![decimal_digits()[n as int]]
    } else {
        decimal(n / 10).push(decimal_digits()[(n % 10) as int])
    }
}

/// The decimal form of `n`.
pub fn decimal_text(n: u64) -> (r: String)
    ensures
        r@ == decimal(n as nat),
    decreases n,
{
    let digits = "0123456789";
    proof {
        reveal_strlit("0123456789");
        assert(digits@ =~= decimal_digits());
    }
    let d = (n % 10) as usize;
    let one = digits.substring_char(d, d + 1);
    assert(one@ =~= seq![decimal_digits()[d as int]]);
    if n < 10 {
        String::from_str(one)
    } else {
        let mut s = decimal_text(n / 10);
        s.append(one);
        assert(s@ =~= decimal((n / 10) as nat).push(decimal_digits()[d as int]));
        s
    }
}

/// `prefix` followed by the decimal form of `n`.
fn text_with_number(prefix: &str, n: u64) -> (r: String)
    ensures
        r@ == prefix@ + decimal(n as nat),
{
    let mut s = String::from_str(prefix);
    let digits = decimal_text(n);
    s.append(digits.as_str());
    s
}

/// `prefix`, the decimal form of `a`, `middle`, then the decimal form of `b`.
fn text_with_numbers(prefix: &str, a: u64, middle: &str, b: u64) -> (r: String)
    ensures
        r@ == prefix@ + decimal(a as nat) + middle@ + decimal(b as nat),
{
    let mut s = text_with_number(prefix, a);
    s.append(middle);
    let digits = decimal_text(b);
    s.append(digits.as_str());
    s
}

/// The message that describes a protocol error, with the numbers it carries in decimal.
pub open spec fn error_message(e: ProtocolError) -> Seq<char> {
    match e {
        ProtocolError::BufferTooSmall { buffer_size } => "Buffer too small for packet: size "@ + decimal(buffer_size as nat),
        ProtocolError::ClientIdEmpty => "Client ID is empty in CONNECT packet"@,
        ProtocolError::ClientIdLengthExceeded { max_length, actual_length } => "Client ID length exceeded: length "@ + decimal(actual_length as nat) + ", max "@ + decimal(max_length as nat),
        ProtocolError::IncompletePacket { available } => "Incomplete packet: available "@ + decimal(available as nat),
        ProtocolError::InvalidConnectFlags { flags } => "Invalid connect flags in CONNECT packet: "@ + decimal(flags as nat),
        ProtocolError::InvalidConnectReturnCode { return_code } => "Invalid connect return code in CONNACK: "@ + decimal(return_code as nat),
        ProtocolError::InvalidPacketLength { expected, actual } => "Invalid packet length: expected "@ + decimal(expected as nat) + ", got "@ + decimal(actual as nat),
        ProtocolError::InvalidPacketType { packet_type } => "Invalid packet type: "@ + decimal(packet_type as nat),
        ProtocolError::InvalidProtocolName => "Invalid protocol name in CONNECT packet"@,
        ProtocolError::InvalidSessionPresentFlag { flag } => "Invalid session present flag in CONNACK packet: "@ + decimal(flag as nat),
        ProtocolError::InvalidUtf8String => "Invalid UTF-8 string"@,
        ProtocolError::MissingPacketId => "Missing Packet Identifier where one is required"@,
        ProtocolError::PasswordLengthExceeded { max_length, actual_length } => "Password length exceeded: length "@ + decimal(actual_length as nat) + ", max "@ + decimal(max_length as nat),
        ProtocolError::PayloadTooLarge { max_size, actual_size } => "Payload too large: size "@ + decimal(actual_size as nat) + ", max "@ + decimal(max_size as nat),
        ProtocolError::InvalidQosLevel { level } => "Invalid QoS level: "@ + decimal(level as nat),
        ProtocolError::TopicEmpty => "Topic name is empty"@,
        ProtocolError::TopicNameLengthExceeded { max_length, actual_length } => "Topic name length exceeded: length "@ + decimal(actual_length as nat) + ", max "@ + decimal(max_length as nat),
        ProtocolError::UnsupportedProtocolLevel { level } => "Unsupported protocol level in CONNECT packet: "@ + decimal(level as nat),
        ProtocolError::UsernameLengthExceeded { max_length, actual_length } => "Username length exceeded: length "@ + decimal(actual_length as nat) + ", max "@ + decimal(max_length as nat),
    }
}

impl ProtocolError {
    /// The message that describes this error.
    pub fn message(&self) -> (r: String)
        ensures
            r@ == error_message(*self),
    {
        match *self {
            ProtocolError::BufferTooSmall { buffer_size } => text_with_number("Buffer too small for packet: size ", buffer_size as u64),
            ProtocolError::ClientIdEmpty => String::from_str("Client ID is empty in CONNECT packet"),
            ProtocolError::ClientIdLengthExceeded { max_length, actual_length } => text_with_numbers("Client ID length exceeded: length ", actual_length as u64, ", max ", max_length as u64),
            ProtocolError::IncompletePacket { available } => text_with_number("Incomplete packet: available ", available as u64),
            ProtocolError::InvalidConnectFlags { flags } => text_with_number("Invalid connect flags in CONNECT packet: ", flags as u64),
            ProtocolError::InvalidConnectReturnCode { return_code } => text_with_number("Invalid connect return code in CONNACK: ", return_code as u64),
            ProtocolError::InvalidPacketLength { expected, actual } => text_with_numbers("Invalid packet length: expected ", expected as u64, ", got ", actual as u64),
            ProtocolError::InvalidPacketType { packet_type } => text_with_number("Invalid packet type: ", packet_type as u64),
            ProtocolError::InvalidProtocolName => String::from_str("Invalid protocol name in CONNECT packet"),
            ProtocolError::InvalidSessionPresentFlag { flag } => text_with_number("Invalid session present flag in CONNACK packet: ", flag as u64),
            ProtocolError::InvalidUtf8String => String::from_str("Invalid UTF-8 string"),
            ProtocolError::MissingPacketId => String::from_str("Missing Packet Identifier where one is required"),
            ProtocolError::PasswordLengthExceeded { max_length, actual_length } => text_with_numbers("Password length exceeded: length ", actual_length as u64, ", max ", max_length as u64),
            ProtocolError::PayloadTooLarge { max_size, actual_size } => text_with_numbers("Payload too large: size ", actual_size as u64, ", max ", max_size as u64),
            ProtocolError::InvalidQosLevel { level } => text_with_number("Invalid QoS level: ", level as u64),
            ProtocolError::TopicEmpty => String::from_str("Topic name is empty"),
            ProtocolError::TopicNameLengthExceeded { max_length, actual_length } => text_with_numbers("Topic name length exceeded: length ", actual_length as u64, ", max ", max_length as u64),
            ProtocolError::UnsupportedProtocolLevel { level } => text_with_number("Unsupported protocol level in CONNECT packet: ", level as u64),
            ProtocolError::UsernameLengthExceeded { max_length, actual_length } => text_with_numbers("Username length exceeded: length ", actual_length as u64, ", max ", max_length as u64),
        }
    }
}

} // verus!
