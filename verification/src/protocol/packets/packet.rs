//! Any MQTT control packet, with encoding and decoding dispatched on the packet type.
use vstd::prelude::*;
use crate::protocol::error::ProtocolError;
use crate::protocol::packet_type::{spec_packet_type, type_code, PacketType};
use crate::protocol::packets::connack::{lemma_connack_roundtrip, spec_connack_bytes, spec_decode_connack};
use crate::protocol::packets::connect::{
    connect_well_formed, lemma_connect_roundtrip, spec_connect_bytes, spec_connect_encode,
    spec_decode_connect,
};
use crate::protocol::packets::publish::{
    lemma_publish_roundtrip, publish_well_formed, spec_nibble, spec_publish_bytes,
    spec_publish_encode,
};
use crate::protocol::packets::suback::{lemma_suback_roundtrip, spec_decode_suback, spec_suback_bytes};
use crate::protocol::packets::subscribe::{
    lemma_subscribe_frame_roundtrip, spec_decode_subscribe_frame, spec_subscribe_frame,
    spec_subscribe_frame_encode, subscribe_well_formed,
};
use crate::protocol::packets::unsubscribe::{
    lemma_unsubscribe_roundtrip, spec_decode_unsubscribe, spec_unsubscribe_bytes,
    spec_unsubscribe_encode, unsubscribe_well_formed,
};
use crate::protocol::packets::{
    lemma_fixed2_checks, lemma_fixed_pid_roundtrip, spec_check_fixed, spec_decode_pid, spec_fixed2,
    spec_fixed_pid, ConnAckPacket, ConnectPacket,
    DisconnectPacket, PacketEncoder, PacketFlagsDynamic, PacketTypeDynamic, PingReqPacket,
    PingRespPacket, PubAckPacket, PubCompPacket, PubRecPacket, PubRelPacket, PublishPacket,
    SubAckPacket, SubscribePacket, UnsubAckPacket, UnsubscribePacket,
};
use crate::protocol::heapless::HeaplessString;
use crate::protocol::utils::splice;

verus! {

/// An MQTT control packet of any type.
#[derive(Debug, Clone, Copy, PartialEq, Eq)]
pub enum Packet<const MAX_TOPIC_NAME_LENGTH: usize, const MAX_PAYLOAD_SIZE: usize> {
    Connect(ConnectPacket<MAX_TOPIC_NAME_LENGTH, MAX_PAYLOAD_SIZE>),
    ConnAck(ConnAckPacket),
    Publish(PublishPacket<MAX_TOPIC_NAME_LENGTH, MAX_PAYLOAD_SIZE>),
    PubAck(PubAckPacket),
    PubRec(PubRecPacket),
    PubRel(PubRelPacket),
    PubComp(PubCompPacket),
    Subscribe(SubscribePacket<MAX_TOPIC_NAME_LENGTH>),
    SubAck(SubAckPacket),
    Unsubscribe(UnsubscribePacket<MAX_TOPIC_NAME_LENGTH>),
    UnsubAck(UnsubAckPacket),
    PingReq(PingReqPacket),
    PingResp(PingRespPacket),
    Disconnect(DisconnectPacket),
}

/// What writing a packet of `size` bytes into a buffer of `buffer_len` bytes returns.
pub open spec fn spec_fixed_encode(size: nat, buffer_len: nat) -> Result<usize, ProtocolError> {
    if buffer_len < size {
        Err(ProtocolError::BufferTooSmall { buffer_size: buffer_len as usize })
    } else {
        Ok(size as usize)
    }
}

impl<const MAX_TOPIC_NAME_LENGTH: usize, const MAX_PAYLOAD_SIZE: usize> Packet<
    MAX_TOPIC_NAME_LENGTH,
    MAX_PAYLOAD_SIZE,
> {
    /// The bytes this packet encodes to.
    pub open spec fn wire_bytes(self) -> Seq<u8> {
        match self {
            Packet::Connect(p) => spec_connect_bytes(p@),
            Packet::ConnAck(p) => spec_connack_bytes(p),
            Packet::Publish(p) => spec_publish_bytes(p@),
            Packet::PubAck(p) => spec_fixed_pid(0x40u8, p.packet_id),
            Packet::PubRec(p) => spec_fixed_pid(0x50u8, p.packet_id),
            Packet::PubRel(p) => spec_fixed_pid(0x62u8, p.packet_id),
            Packet::PubComp(p) => spec_fixed_pid(0x70u8, p.packet_id),
            Packet::Subscribe(p) => spec_subscribe_frame(p@),
            Packet::SubAck(p) => spec_suback_bytes(p),
            Packet::Unsubscribe(p) => spec_unsubscribe_bytes(p@),
            Packet::UnsubAck(p) => spec_fixed_pid(0xB0u8, p.packet_id),
            Packet::PingReq(_) => spec_fixed2(0xC0u8),
            Packet::PingResp(_) => spec_fixed2(0xD0u8),
            Packet::Disconnect(_) => spec_fixed2(0xE0u8),
        }
    }

    /// What encoding this packet into a buffer of `buffer_len` bytes returns.
    pub open spec fn encode_result(self, buffer_len: nat) -> Result<usize, ProtocolError> {
        match self {
            Packet::Connect(p) => spec_connect_encode(p@, buffer_len),
            Packet::ConnAck(_) => spec_fixed_encode(4, buffer_len),
            Packet::Publish(p) => spec_publish_encode(p@, buffer_len),
            Packet::PubAck(_) => spec_fixed_encode(4, buffer_len),
            Packet::PubRec(_) => spec_fixed_encode(4, buffer_len),
            Packet::PubRel(_) => spec_fixed_encode(4, buffer_len),
            Packet::PubComp(_) => spec_fixed_encode(4, buffer_len),
            Packet::Subscribe(p) => spec_subscribe_frame_encode(p@, buffer_len),
            Packet::SubAck(_) => spec_fixed_encode(5, buffer_len),
            Packet::Unsubscribe(p) => spec_unsubscribe_encode(p@, buffer_len),
            Packet::UnsubAck(_) => spec_fixed_encode(4, buffer_len),
            Packet::PingReq(_) => spec_fixed_encode(2, buffer_len),
            Packet::PingResp(_) => spec_fixed_encode(2, buffer_len),
            Packet::Disconnect(_) => spec_fixed_encode(2, buffer_len),
        }
    }

    /// Whether `encode` can take a buffer of `buffer_len` bytes.
    pub fn encode_accepted(&self, buffer_len: usize) -> (r: bool)
        ensures
            r == self.encode_accepts(buffer_len as nat),
    {
        match self {
            Packet::Connect(p) => p.encode_accepted(buffer_len),
            _ => true,
        }
    }

    /// True when `r` is what decoding `bytes` yields: the decoder of the type named by the
    /// first byte decides, and the reserved types are refused.
    pub open spec fn decodes_as(r: Result<Self, ProtocolError>, bytes: Seq<u8>) -> bool {
        let c = bytes[0] / 16;
        if c == 1 {
            match (r, spec_decode_connect(bytes, ConnectPacket::<MAX_TOPIC_NAME_LENGTH, MAX_PAYLOAD_SIZE>::limits())) {
                (Ok(Packet::Connect(p)), Ok(v)) => p@ == v,
                (Err(a), Err(b)) => a == b,
                _ => false,
            }
        } else if c == 2 {
            match (r, spec_decode_connack(bytes)) {
                (Ok(Packet::ConnAck(p)), Ok(v)) => p == v,
                (Err(a), Err(b)) => a == b,
                _ => false,
            }
        } else if c == 3 {
            match (r, PublishPacket::<MAX_TOPIC_NAME_LENGTH, MAX_PAYLOAD_SIZE>::spec_decode(bytes)) {
                (Ok(Packet::Publish(p)), Some(Ok(v))) => p@ == v,
                (Err(a), Some(Err(b))) => a == b,
                _ => false,
            }
        } else if c == 4 {
            match (r, spec_decode_pid(bytes, 4, true)) {
                (Ok(Packet::PubAck(p)), Ok(pid)) => p.packet_id == pid,
                (Err(a), Err(b)) => a == b,
                _ => false,
            }
        } else if c == 5 {
            match (r, spec_decode_pid(bytes, 5, false)) {
                (Ok(Packet::PubRec(p)), Ok(pid)) => p.packet_id == pid,
                (Err(a), Err(b)) => a == b,
                _ => false,
            }
        } else if c == 6 {
            match (r, spec_decode_pid(bytes, 6, false)) {
                (Ok(Packet::PubRel(p)), Ok(pid)) => p.packet_id == pid,
                (Err(a), Err(b)) => a == b,
                _ => false,
            }
        } else if c == 7 {
            match (r, spec_decode_pid(bytes, 7, true)) {
                (Ok(Packet::PubComp(p)), Ok(pid)) => p.packet_id == pid,
                (Err(a), Err(b)) => a == b,
                _ => false,
            }
        } else if c == 8 {
            match (
                r,
                spec_decode_subscribe_frame(
                    bytes,
                    MAX_TOPIC_NAME_LENGTH,
                    HeaplessString::<MAX_TOPIC_NAME_LENGTH>::limit(),
                ),
            ) {
                (Ok(Packet::Subscribe(p)), Ok(v)) => p@ == v,
                (Err(a), Err(b)) => a == b,
                _ => false,
            }
        } else if c == 9 {
            match (r, spec_decode_suback(bytes)) {
                (Ok(Packet::SubAck(p)), Ok(v)) => p == v,
                (Err(a), Err(b)) => a == b,
                _ => false,
            }
        } else if c == 10 {
            match (
                r,
                spec_decode_unsubscribe(
                    bytes,
                    MAX_TOPIC_NAME_LENGTH,
                    HeaplessString::<MAX_TOPIC_NAME_LENGTH>::limit(),
                ),
            ) {
                (Ok(Packet::Unsubscribe(p)), Ok(v)) => p@ == v,
                (Err(a), Err(b)) => a == b,
                _ => false,
            }
        } else if c == 11 {
            match (r, spec_decode_pid(bytes, 11, false)) {
                (Ok(Packet::UnsubAck(p)), Ok(pid)) => p.packet_id == pid,
                (Err(a), Err(b)) => a == b,
                _ => false,
            }
        } else if c == 12 {
            match (r, spec_check_fixed(bytes, 12, 2)) {
                (Ok(Packet::PingReq(_)), Ok(())) => true,
                (Err(a), Err(b)) => a == b,
                _ => false,
            }
        } else if c == 13 {
            match (r, spec_check_fixed(bytes, 13, 2)) {
                (Ok(Packet::PingResp(_)), Ok(())) => true,
                (Err(a), Err(b)) => a == b,
                _ => false,
            }
        } else if c == 14 {
            match (r, spec_check_fixed(bytes, 14, 2)) {
                (Ok(Packet::Disconnect(_)), Ok(())) => true,
                (Err(a), Err(b)) => a == b,
                _ => false,
            }
        } else {
            r == Err::<Self, ProtocolError>(ProtocolError::InvalidPacketType { packet_type: c })
        }
    }
}

impl<const MAX_TOPIC_NAME_LENGTH: usize, const MAX_PAYLOAD_SIZE: usize> PacketTypeDynamic for Packet<
    MAX_TOPIC_NAME_LENGTH,
    MAX_PAYLOAD_SIZE,
> {
    open spec fn kind(&self) -> PacketType {
        match self {
            Packet::Connect(_) => PacketType::Connect,
            Packet::ConnAck(_) => PacketType::ConnAck,
            Packet::Publish(_) => PacketType::Publish,
            Packet::PubAck(_) => PacketType::PubAck,
            Packet::PubRec(_) => PacketType::PubRec,
            Packet::PubRel(_) => PacketType::PubRel,
            Packet::PubComp(_) => PacketType::PubComp,
            Packet::Subscribe(_) => PacketType::Subscribe,
            Packet::SubAck(_) => PacketType::SubAck,
            Packet::Unsubscribe(_) => PacketType::Unsubscribe,
            Packet::UnsubAck(_) => PacketType::UnsubAck,
            Packet::PingReq(_) => PacketType::PingReq,
            Packet::PingResp(_) => PacketType::PingResp,
            Packet::Disconnect(_) => PacketType::Disconnect,
        }
    }

    fn packet_type(&self) -> (r: PacketType) {
        match self {
            Packet::Connect(_) => PacketType::Connect,
            Packet::ConnAck(_) => PacketType::ConnAck,
            Packet::Publish(_) => PacketType::Publish,
            Packet::PubAck(_) => PacketType::PubAck,
            Packet::PubRec(_) => PacketType::PubRec,
            Packet::PubRel(_) => PacketType::PubRel,
            Packet::PubComp(_) => PacketType::PubComp,
            Packet::Subscribe(_) => PacketType::Subscribe,
            Packet::SubAck(_) => PacketType::SubAck,
            Packet::Unsubscribe(_) => PacketType::Unsubscribe,
            Packet::UnsubAck(_) => PacketType::UnsubAck,
            Packet::PingReq(_) => PacketType::PingReq,
            Packet::PingResp(_) => PacketType::PingResp,
            Packet::Disconnect(_) => PacketType::Disconnect,
        }
    }
}

impl<const MAX_TOPIC_NAME_LENGTH: usize, const MAX_PAYLOAD_SIZE: usize> PacketFlagsDynamic for Packet<
    MAX_TOPIC_NAME_LENGTH,
    MAX_PAYLOAD_SIZE,
> {
    open spec fn flag_bits(&self) -> u8 {
        match self {
            Packet::Publish(p) => spec_nibble(p.dup, p.qos, p.retain),
            Packet::PubRel(_) => 2,
            Packet::Subscribe(_) => 2,
            Packet::Unsubscribe(_) => 2,
            _ => 0,
        }
    }

    fn flags(&self) -> (r: u8) {
        match self {
            Packet::Publish(p) => p.flags(),
            Packet::PubRel(_) => 2,
            Packet::Subscribe(_) => 2,
            Packet::Unsubscribe(_) => 2,
            _ => 0,
        }
    }
}

impl<const MAX_TOPIC_NAME_LENGTH: usize, const MAX_PAYLOAD_SIZE: usize> PacketEncoder for Packet<
    MAX_TOPIC_NAME_LENGTH,
    MAX_PAYLOAD_SIZE,
> {
    open spec fn encode_accepts(&self, buffer_len: nat) -> bool {
        match self {
            Packet::Connect(p) => p.encode_accepts(buffer_len),
            _ => true,
        }
    }

    open spec fn decode_accepts(bytes: Seq<u8>) -> bool {
        &&& bytes.len() >= 1
        &&& bytes[0] / 16 == 3 ==> PublishPacket::<
            MAX_TOPIC_NAME_LENGTH,
            MAX_PAYLOAD_SIZE,
        >::spec_decode(bytes) is Some
    }

    fn encode(&self, buffer: &mut [u8]) -> (r: Result<usize, ProtocolError>)
        ensures
            r == self.encode_result(old(buffer)@.len()),
            r is Ok ==> final(buffer)@ == splice(old(buffer)@, 0, self.wire_bytes()),
    {
        match self {
            Packet::Connect(packet) => packet.encode(buffer),
            Packet::ConnAck(packet) => packet.encode(buffer),
            Packet::Publish(packet) => packet.encode(buffer),
            Packet::PubAck(packet) => packet.encode(buffer),
            Packet::PubRec(packet) => packet.encode(buffer),
            Packet::PubRel(packet) => packet.encode(buffer),
            Packet::PubComp(packet) => packet.encode(buffer),
            Packet::Subscribe(packet) => packet.encode_frame(buffer),
            Packet::SubAck(packet) => packet.encode(buffer),
            Packet::Unsubscribe(packet) => packet.encode(buffer),
            Packet::UnsubAck(packet) => packet.encode(buffer),
            Packet::PingReq(packet) => packet.encode(buffer),
            Packet::PingResp(packet) => packet.encode(buffer),
            Packet::Disconnect(packet) => packet.encode(buffer),
        }
    }

    fn decode(bytes: &[u8]) -> (r: Result<Self, ProtocolError>)
        ensures
            Self::decodes_as(r, bytes@),
    {
        let type_byte = bytes[0] / 16;
        let packet_type = PacketType::from_byte(type_byte);
        match packet_type {
            PacketType::Connect => Ok(Packet::Connect(ConnectPacket::decode(bytes)?)),
            PacketType::ConnAck => Ok(Packet::ConnAck(ConnAckPacket::decode(bytes)?)),
            PacketType::Publish => Ok(Packet::Publish(PublishPacket::decode(bytes)?)),
            PacketType::PubAck => Ok(Packet::PubAck(PubAckPacket::decode(bytes)?)),
            PacketType::PubRec => Ok(Packet::PubRec(PubRecPacket::decode(bytes)?)),
            PacketType::PubRel => Ok(Packet::PubRel(PubRelPacket::decode(bytes)?)),
            PacketType::PubComp => Ok(Packet::PubComp(PubCompPacket::decode(bytes)?)),
            PacketType::Subscribe => Ok(Packet::Subscribe(SubscribePacket::decode_frame(bytes)?)),
            PacketType::SubAck => Ok(Packet::SubAck(SubAckPacket::decode(bytes)?)),
            PacketType::Unsubscribe => Ok(Packet::Unsubscribe(UnsubscribePacket::decode(bytes)?)),
            PacketType::UnsubAck => Ok(Packet::UnsubAck(UnsubAckPacket::decode(bytes)?)),
            PacketType::PingReq => Ok(Packet::PingReq(PingReqPacket::decode(bytes)?)),
            PacketType::PingResp => Ok(Packet::PingResp(PingRespPacket::decode(bytes)?)),
            PacketType::Disconnect => Ok(Packet::Disconnect(DisconnectPacket::decode(bytes)?)),
            _ => Err(ProtocolError::InvalidPacketType { packet_type: type_byte }),
        }
    }
}

/// The conditions under which a packet reads back as itself: those of each packet kind.
pub open spec fn packet_well_formed<const MAX_TOPIC_NAME_LENGTH: usize, const MAX_PAYLOAD_SIZE: usize>(
    p: Packet<MAX_TOPIC_NAME_LENGTH, MAX_PAYLOAD_SIZE>,
) -> bool {
    match p {
        Packet::Connect(c) => connect_well_formed(
            c@,
            ConnectPacket::<MAX_TOPIC_NAME_LENGTH, MAX_PAYLOAD_SIZE>::limits(),
        ),
        Packet::Publish(q) => publish_well_formed(
            q@,
            PublishPacket::<MAX_TOPIC_NAME_LENGTH, MAX_PAYLOAD_SIZE>::limits(),
        ),
        Packet::PubAck(a) => a.packet_id != 0,
        Packet::PubComp(a) => a.packet_id != 0,
        Packet::Subscribe(q) => subscribe_well_formed(
            q@,
            HeaplessString::<MAX_TOPIC_NAME_LENGTH>::limit(),
        ),
        Packet::Unsubscribe(q) => unsubscribe_well_formed(
            q@,
            HeaplessString::<MAX_TOPIC_NAME_LENGTH>::limit(),
        ),
        _ => true,
    }
}

/// A well-formed packet of any kind decodes back to itself from its own bytes, whatever
/// follows them.
pub proof fn lemma_packet_roundtrip<const MAX_TOPIC_NAME_LENGTH: usize, const MAX_PAYLOAD_SIZE: usize>(
    p: Packet<MAX_TOPIC_NAME_LENGTH, MAX_PAYLOAD_SIZE>,
    rest: Seq<u8>,
)
    requires
        packet_well_formed(p),
    ensures
        Packet::<MAX_TOPIC_NAME_LENGTH, MAX_PAYLOAD_SIZE>::decodes_as(Ok(p), p.wire_bytes() + rest),
{
    let s = p.wire_bytes() + rest;
    match p {
        Packet::Connect(c) => {
            lemma_connect_roundtrip(c@, rest, ConnectPacket::<MAX_TOPIC_NAME_LENGTH, MAX_PAYLOAD_SIZE>::limits());
            assert(s[0] == 0x10u8);
        },
        Packet::ConnAck(c) => {
            lemma_connack_roundtrip(c, rest);
            assert(s[0] == 0x20u8);
        },
        Packet::Publish(q) => {
            lemma_publish_roundtrip(q@, rest, PublishPacket::<MAX_TOPIC_NAME_LENGTH, MAX_PAYLOAD_SIZE>::limits());
            assert(s[0] == (48 + spec_nibble(q.dup, q.qos, q.retain)) as u8);
        },
        Packet::PubAck(a) => {
            lemma_fixed_pid_roundtrip(0x40u8, 4, a.packet_id, rest);
        },
        Packet::PubRec(a) => {
            lemma_fixed_pid_roundtrip(0x50u8, 5, a.packet_id, rest);
        },
        Packet::PubRel(a) => {
            lemma_fixed_pid_roundtrip(0x62u8, 6, a.packet_id, rest);
        },
        Packet::PubComp(a) => {
            lemma_fixed_pid_roundtrip(0x70u8, 7, a.packet_id, rest);
        },
        Packet::Subscribe(q) => {
            lemma_subscribe_frame_roundtrip(
                q@,
                rest,
                MAX_TOPIC_NAME_LENGTH,
                HeaplessString::<MAX_TOPIC_NAME_LENGTH>::limit(),
            );
            assert(s[0] == 0x82u8);
        },
        Packet::SubAck(a) => {
            lemma_suback_roundtrip(a, rest);
            assert(s[0] == 0x90u8);
        },
        Packet::Unsubscribe(q) => {
            lemma_unsubscribe_roundtrip(
                q@,
                rest,
                MAX_TOPIC_NAME_LENGTH,
                HeaplessString::<MAX_TOPIC_NAME_LENGTH>::limit(),
            );
            assert(s[0] == 0xA2u8);
        },
        Packet::UnsubAck(a) => {
            lemma_fixed_pid_roundtrip(0xB0u8, 11, a.packet_id, rest);
        },
        Packet::PingReq(_) => {
            lemma_fixed2_checks(0xC0u8, 12, rest);
        },
        Packet::PingResp(_) => {
            lemma_fixed2_checks(0xD0u8, 13, rest);
        },
        Packet::Disconnect(_) => {
            lemma_fixed2_checks(0xE0u8, 14, rest);
        },
    }
}

} // verus!
