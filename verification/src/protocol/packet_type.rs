//! The packet type carried in the high nibble of a packet's first byte.
use vstd::prelude::*;

verus! {

/// MQTT control packet types.
#[derive(Debug, Copy, Clone, PartialEq, Eq, Hash, Ord, PartialOrd, Structural)]
pub enum PacketType {
    Reserved,
    Connect,
    ConnAck,
    Publish,
    PubAck,
    PubRec,
    PubRel,
    PubComp,
    Subscribe,
    SubAck,
    Unsubscribe,
    UnsubAck,
    PingReq,
    PingResp,
    Disconnect,
    Reserved2,
}

/// The numeric code of a packet type.
pub open spec fn type_code(t: PacketType) -> u8 {
    match t {
        PacketType::Reserved => 0,
        PacketType::Connect => 1,
        PacketType::ConnAck => 2,
        PacketType::Publish => 3,
        PacketType::PubAck => 4,
        PacketType::PubRec => 5,
        PacketType::PubRel => 6,
        PacketType::PubComp => 7,
        PacketType::Subscribe => 8,
        PacketType::SubAck => 9,
        PacketType::Unsubscribe => 10,
        PacketType::UnsubAck => 11,
        PacketType::PingReq => 12,
        PacketType::PingResp => 13,
        PacketType::Disconnect => 14,
        PacketType::Reserved2 => 15,
    }
}

/// The packet type a byte names: its own value when below 16, else its high nibble.
pub open spec fn spec_packet_type(byte: u8) -> PacketType {
    let c = if byte < 16 { byte } else { byte / 16 };
    if c == 0 {
        PacketType::Reserved
    } else if c == 1 {
        PacketType::Connect
    } else if c == 2 {
        PacketType::ConnAck
    } else if c == 3 {
        PacketType::Publish
    } else if c == 4 {
        PacketType::PubAck
    } else if c == 5 {
        PacketType::PubRec
    } else if c == 6 {
        PacketType::PubRel
    } else if c == 7 {
        PacketType::PubComp
    } else if c == 8 {
        PacketType::Subscribe
    } else if c == 9 {
        PacketType::SubAck
    } else if c == 10 {
        PacketType::Unsubscribe
    } else if c == 11 {
        PacketType::UnsubAck
    } else if c == 12 {
        PacketType::PingReq
    } else if c == 13 {
        PacketType::PingResp
    } else if c == 14 {
        PacketType::Disconnect
    } else {
        PacketType::Reserved2
    }
}

impl PacketType {
    /// The packet type a byte names.
    pub fn from_byte(byte: u8) -> (r: Self)
        ensures
            r == spec_packet_type(byte),
    {
        let c = if byte < 16 { byte } else { byte / 16 };
        match c {
            0 => PacketType::Reserved,
            1 => PacketType::Connect,
            2 => PacketType::ConnAck,
            3 => PacketType::Publish,
            4 => PacketType::PubAck,
            5 => PacketType::PubRec,
            6 => PacketType::PubRel,
            7 => PacketType::PubComp,
            8 => PacketType::Subscribe,
            9 => PacketType::SubAck,
            10 => PacketType::Unsubscribe,
            11 => PacketType::UnsubAck,
            12 => PacketType::PingReq,
            13 => PacketType::PingResp,
            14 => PacketType::Disconnect,
            _ => PacketType::Reserved2,
        }
    }

    /// The numeric code of this type.
    pub fn to_u8(self) -> (r: u8)
        ensures
            r == type_code(self),
    {
        match self {
            PacketType::Reserved => 0,
            PacketType::Connect => 1,
            PacketType::ConnAck => 2,
            PacketType::Publish => 3,
            PacketType::PubAck => 4,
            PacketType::PubRec => 5,
            PacketType::PubRel => 6,
            PacketType::PubComp => 7,
            PacketType::Subscribe => 8,
            PacketType::SubAck => 9,
            PacketType::Unsubscribe => 10,
            PacketType::UnsubAck => 11,
            PacketType::PingReq => 12,
            PacketType::PingResp => 13,
            PacketType::Disconnect => 14,
            PacketType::Reserved2 => 15,
        }
    }
}

impl From<u8> for PacketType {
    fn from(byte: u8) -> (r: Self) {
        Self::from_byte(byte)
    }
}

impl vstd::std_specs::convert::FromSpecImpl<u8> for PacketType {
    open spec fn obeys_from_spec() -> bool {
        true
    }

    open spec fn from_spec(byte: u8) -> Self {
        spec_packet_type(byte)
    }
}

impl Default for PacketType {
    fn default() -> (r: Self)
        ensures
            r == PacketType::Reserved,
    {
        PacketType::Reserved
    }
}

/// A type's code names it back.
pub proof fn lemma_type_code_roundtrip(t: PacketType)
    ensures
        spec_packet_type(type_code(t)) == t,
{
}

} // verus!
