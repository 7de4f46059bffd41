//! MQTT control packets and their wire codec.
pub mod connack;
pub mod connect;
pub mod disconnect;
pub mod pingreq;
pub mod pingresp;
pub mod puback;
pub mod pubcomp;
pub mod publish;
pub mod pubrec;
pub mod pubrel;
pub mod suback;
pub mod subscribe;
pub mod unsuback;
pub mod unsubscribe;
pub mod packet;

pub use connack::{ConnAckPacket, ConnectReturnCode};
pub use connect::{ConnectFlags, ConnectPacket};
pub use disconnect::DisconnectPacket;
pub use pingreq::PingReqPacket;
pub use pingresp::PingRespPacket;
pub use puback::PubAckPacket;
pub use pubcomp::{PubComp, PubCompPacket};
pub use publish::{PublishFlags, PublishPacket};
pub use pubrec::PubRecPacket;
pub use pubrel::PubRelPacket;
pub use suback::SubAckPacket;
pub use subscribe::SubscribePacket;
pub use unsuback::UnsubAckPacket;
pub use unsubscribe::UnsubscribePacket;
pub use packet::Packet;

use vstd::prelude::*;
use crate::protocol::error::ProtocolError;
use crate::protocol::packet_type::{spec_packet_type, type_code, PacketType};
use crate::protocol::utils::{be_bytes, be_value, lemma_varint_roundtrip, read_u16_be, read_variable_length_at, spec_encode_varint, spec_read_varint, spec_read_varint_from, spec_varint_len, splice, variable_length_length, write_u16_be, MAX_VARIABLE_LENGTH};

verus! {

/// A packet type fixed by the Rust type of the packet.
pub trait PacketTypeConst {
    const PACKET_TYPE: PacketType;

    /// Checks that a packet's first byte names this packet type.
    fn validate_packet_type(header_first_byte: u8) -> (r: Result<(), ProtocolError>)
        ensures
            (r is Ok) <==> spec_packet_type(header_first_byte / 16) == Self::PACKET_TYPE,
            r matches Err(e) ==> e == (ProtocolError::InvalidPacketType {
                packet_type: header_first_byte / 16,
            }),
    {
        let type_byte = header_first_byte / 16;
        let packet_type = PacketType::from_byte(type_byte);
        if packet_type != Self::PACKET_TYPE {
            return Err(ProtocolError::InvalidPacketType { packet_type: type_byte });
        }
        Ok(())
    }
}

/// The packet type of a packet value.
pub trait PacketTypeDynamic {
    /// The packet type, as a value.
    spec fn kind(&self) -> PacketType;

    fn packet_type(&self) -> (r: PacketType)
        ensures
            r == self.kind(),
    ;
}

/// Header flags fixed by the Rust type of the packet.
pub trait PacketFlagsConst {
    const PACKET_FLAGS: u8;
}

/// The header flags of a packet value.
pub trait PacketFlagsDynamic {
    /// The flags nibble, as a value.
    spec fn flag_bits(&self) -> u8;

    fn flags(&self) -> (r: u8)
        ensures
            r == self.flag_bits(),
    ;
}

/// The first byte of a packet's fixed header: the type code in the high nibble and the
/// flags in the low nibble.
pub trait PacketHeader: PacketTypeDynamic + PacketFlagsDynamic {
    fn header_first_byte(&self) -> (r: u8)
        ensures
            r == header_byte(type_code(self.kind()), self.flag_bits()),
    ;
}

impl<T: PacketTypeConst> PacketTypeDynamic for T {
    open spec fn kind(&self) -> PacketType {
        T::PACKET_TYPE
    }

    fn packet_type(&self) -> (r: PacketType) {
        T::PACKET_TYPE
    }
}

impl<T: PacketFlagsConst> PacketFlagsDynamic for T {
    open spec fn flag_bits(&self) -> u8 {
        T::PACKET_FLAGS
    }

    fn flags(&self) -> (r: u8) {
        T::PACKET_FLAGS
    }
}

impl<T: PacketTypeDynamic + PacketFlagsDynamic> PacketHeader for T {
    fn header_first_byte(&self) -> (r: u8) {
        let t = self.packet_type().to_u8();
        let f = self.flags();
        t * 16 + f % 16
    }
}

/// Encoding a packet into bytes and decoding it back.
pub trait PacketEncoder: Sized {
    /// The buffer lengths `encode` accepts without panicking.
    spec fn encode_accepts(&self, buffer_len: nat) -> bool;

    /// The inputs `decode` accepts without panicking.
    spec fn decode_accepts(bytes: Seq<u8>) -> bool;

    /// Writes the packet at the start of `buffer` and returns the number of bytes written.
    fn encode(&self, buffer: &mut [u8]) -> (r: Result<usize, ProtocolError>)
        requires
            self.encode_accepts(old(buffer)@.len()),
        ensures
            final(buffer)@.len() == old(buffer)@.len(),
    ;

    /// Reads a packet from the start of `bytes`.
    fn decode(bytes: &[u8]) -> (r: Result<Self, ProtocolError>)
        requires
            Self::decode_accepts(bytes@),
    ;
}

/// The first header byte for a packet type code and a flags nibble.
pub open spec fn header_byte(type_code: u8, flags: u8) -> u8 {
    (type_code as int * 16 + flags as int % 16) as u8
}

/// The checks every fixed-size packet makes before reading its fields: the input holds
/// at least `size` bytes, names packet type `type_code`, and its remaining length gives
/// a packet of exactly `size` bytes.
pub open spec fn spec_check_fixed(bytes: Seq<u8>, type_code: u8, size: nat) -> Result<(), ProtocolError> {
    if bytes.len() < size {
        Err(ProtocolError::BufferTooSmall { buffer_size: bytes.len() as usize })
    } else if bytes[0] / 16 != type_code {
        Err(ProtocolError::InvalidPacketType { packet_type: bytes[0] / 16 })
    } else {
        match spec_read_varint(bytes.skip(1)) {
            Err(e) => Err(e),
            Ok((rl, _)) => {
                let total = rl as int + spec_varint_len(rl as int) + 1;
                if total != size {
                    Err(ProtocolError::InvalidPacketLength { expected: size as usize, actual: total as usize })
                } else {
                    Ok(())
                }
            },
        }
    }
}

/// Checks the fixed header of a fixed-size packet.
pub fn check_fixed_header(bytes: &[u8], type_code: u8, size: usize) -> (r: Result<(), ProtocolError>)
    requires
        1 <= size <= 5,
    ensures
        r == spec_check_fixed(bytes@, type_code, size as nat),
{
    if bytes.len() < size {
        return Err(ProtocolError::BufferTooSmall { buffer_size: bytes.len() });
    }
    let t = bytes[0] / 16;
    if t != type_code {
        return Err(ProtocolError::InvalidPacketType { packet_type: t });
    }
    let (rl, _) = read_variable_length_at(bytes, 1)?;
    let il = variable_length_length(rl);
    if rl > MAX_VARIABLE_LENGTH || rl + il + 1 != size {
        proof {
            assert(rl <= MAX_VARIABLE_LENGTH) by {
                lemma_read_varint_bound(bytes@.skip(1));
            }
        }
        return Err(ProtocolError::InvalidPacketLength { expected: size, actual: rl + il + 1 });
    }
    Ok(())
}

/// A decoded remaining length never exceeds the maximum.
pub proof fn lemma_read_varint_bound(bytes: Seq<u8>)
    ensures
        spec_read_varint(bytes) matches Ok((v, n)) ==> v <= MAX_VARIABLE_LENGTH && 1 <= n <= 4,
{
    reveal_with_fuel(spec_read_varint_from, 6);
}

/// The bytes of a two-byte packet: its header byte and a zero remaining length.
pub open spec fn spec_fixed2(first: u8) -> Seq<u8> {
    seq![first, 0u8]
}

/// The bytes of a packet that carries only a packet identifier.
pub open spec fn spec_fixed_pid(first: u8, packet_id: u16) -> Seq<u8> {
    seq![first, 2u8] + be_bytes(packet_id as int)
}

/// Writes a two-byte packet.
pub fn encode_fixed2(first: u8, buffer: &mut [u8]) -> (r: Result<usize, ProtocolError>)
    ensures
        old(buffer)@.len() < 2 ==> r == Err::<usize, ProtocolError>(
            ProtocolError::BufferTooSmall { buffer_size: old(buffer)@.len() as usize },
        ) && final(buffer)@ == old(buffer)@,
        old(buffer)@.len() >= 2 ==> r == Ok::<usize, ProtocolError>(2) && final(buffer)@ == splice(
            old(buffer)@,
            0,
            spec_fixed2(first),
        ),
{
    if buffer.len() < 2 {
        return Err(ProtocolError::BufferTooSmall { buffer_size: buffer.len() });
    }
    buffer[0] = first;
    buffer[1] = 0u8;
    assert(buffer@ =~= splice(old(buffer)@, 0, spec_fixed2(first)));
    Ok(2)
}

/// Writes a four-byte packet that carries a packet identifier.
pub fn encode_fixed_pid(first: u8, packet_id: u16, buffer: &mut [u8]) -> (r: Result<
    usize,
    ProtocolError,
>)
    ensures
        old(buffer)@.len() < 4 ==> r == Err::<usize, ProtocolError>(
            ProtocolError::BufferTooSmall { buffer_size: old(buffer)@.len() as usize },
        ) && final(buffer)@ == old(buffer)@,
        old(buffer)@.len() >= 4 ==> r == Ok::<usize, ProtocolError>(4) && final(buffer)@ == splice(
            old(buffer)@,
            0,
            spec_fixed_pid(first, packet_id),
        ),
{
    if buffer.len() < 4 {
        return Err(ProtocolError::BufferTooSmall { buffer_size: buffer.len() });
    }
    buffer[0] = first;
    buffer[1] = 2u8;
    write_u16_be(packet_id, buffer, 2);
    assert(buffer@ =~= splice(old(buffer)@, 0, spec_fixed_pid(first, packet_id)));
    Ok(4)
}

/// What decoding a packet-identifier-only packet yields.
pub open spec fn spec_decode_pid(bytes: Seq<u8>, type_code: u8, reject_zero: bool) -> Result<
    u16,
    ProtocolError,
> {
    match spec_check_fixed(bytes, type_code, 4) {
        Err(e) => Err(e),
        Ok(()) => {
            let pid = be_value(bytes[2], bytes[3]);
            if reject_zero && pid == 0 {
                Err(ProtocolError::MissingPacketId)
            } else {
                Ok(pid)
            }
        },
    }
}

/// Decodes a packet-identifier-only packet.
pub fn decode_pid(bytes: &[u8], type_code: u8, reject_zero: bool) -> (r: Result<u16, ProtocolError>)
    ensures
        r == spec_decode_pid(bytes@, type_code, reject_zero),
{
    check_fixed_header(bytes, type_code, 4)?;
    let pid = read_u16_be(bytes, 2);
    if reject_zero && pid == 0 {
        return Err(ProtocolError::MissingPacketId);
    }
    Ok(pid)
}

/// A well-formed two-byte packet passes the fixed-size checks.
pub proof fn lemma_fixed2_checks(first: u8, type_code: u8, rest: Seq<u8>)
    requires
        first / 16 == type_code,
    ensures
        spec_check_fixed(spec_fixed2(first) + rest, type_code, 2) == Ok::<(), ProtocolError>(()),
{
    let s = spec_fixed2(first) + rest;
    assert(s.skip(1) =~= spec_encode_varint(0) + rest) by {
        reveal_with_fuel(spec_encode_varint, 1);
    }
    lemma_varint_roundtrip(0, rest);
}

/// A well-formed identifier packet passes the fixed-size checks and reads back its identifier.
pub proof fn lemma_fixed_pid_roundtrip(first: u8, type_code: u8, packet_id: u16, rest: Seq<u8>)
    requires
        first / 16 == type_code,
    ensures
        spec_check_fixed(spec_fixed_pid(first, packet_id) + rest, type_code, 4) == Ok::<
            (),
            ProtocolError,
        >(()),
        (spec_fixed_pid(first, packet_id) + rest)[2] == be_bytes(packet_id as int)[0],
        be_value(
            (spec_fixed_pid(first, packet_id) + rest)[2],
            (spec_fixed_pid(first, packet_id) + rest)[3],
        ) == packet_id,
{
    let s = spec_fixed_pid(first, packet_id) + rest;
    assert(s.skip(1) =~= spec_encode_varint(2) + (be_bytes(packet_id as int) + rest)) by {
        reveal_with_fuel(spec_encode_varint, 1);
    }
    lemma_varint_roundtrip(2, be_bytes(packet_id as int) + rest);
}

} // verus!
