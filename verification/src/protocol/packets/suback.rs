//! SUBACK: the broker's answer to SUBSCRIBE.
use vstd::prelude::*;
use crate::protocol::error::ProtocolError;
use crate::protocol::packet_type::PacketType;
use crate::protocol::packets::{PacketEncoder, PacketFlagsConst, PacketTypeConst, check_fixed_header, decode_pid, encode_fixed2, encode_fixed_pid, lemma_fixed2_checks, lemma_fixed_pid_roundtrip, spec_check_fixed, spec_decode_pid, spec_fixed2, spec_fixed_pid};
use crate::protocol::qos::{qos_code, spec_qos_from, QoS};
use crate::protocol::utils::{be_bytes, be_value, lemma_varint_roundtrip, read_u16_be, read_variable_length_at, spec_encode_varint, spec_read_varint, splice, write_u16_be};

verus! {

/// SUBACK packet granting one QoS level.
#[derive(Debug, Clone, Copy, PartialEq, Eq, Structural)]
pub struct SubAckPacket {
    pub packet_id: u16,
    pub granted_qos: QoS,
}

/// The five bytes of a SUBACK.
pub open spec fn spec_suback_bytes(p: SubAckPacket) -> Seq<u8> {
    seq![0x90u8, 3u8] + be_bytes(p.packet_id as int) + seq![qos_code(p.granted_qos)]
}

/// What decoding a SUBACK yields.
pub open spec fn spec_decode_suback(bytes: Seq<u8>) -> Result<SubAckPacket, ProtocolError> {
    if bytes.len() < 5 {
        Err(ProtocolError::IncompletePacket { available: bytes.len() as usize })
    } else if bytes[0] / 16 != 9 {
        Err(ProtocolError::InvalidPacketType { packet_type: bytes[0] / 16 })
    } else {
        match spec_read_varint(bytes.skip(1)) {
            Err(e) => Err(e),
            Ok((rl, _)) => if rl != 3 {
                Err(ProtocolError::InvalidPacketLength { expected: 3, actual: rl })
            } else {
                match spec_qos_from(bytes[4]) {
                    Err(e) => Err(e),
                    Ok(q) => Ok(SubAckPacket { packet_id: be_value(bytes[2], bytes[3]), granted_qos: q }),
                }
            },
        }
    }
}

impl PacketTypeConst for SubAckPacket {
    const PACKET_TYPE: PacketType = PacketType::SubAck;
}

impl PacketFlagsConst for SubAckPacket {
    const PACKET_FLAGS: u8 = 0;
}

impl PacketEncoder for SubAckPacket {
    open spec fn encode_accepts(&self, buffer_len: nat) -> bool {
        true
    }

    open spec fn decode_accepts(bytes: Seq<u8>) -> bool {
        true
    }

    fn encode(&self, buffer: &mut [u8]) -> (r: Result<usize, ProtocolError>)
        ensures
            old(buffer)@.len() < 5 ==> r == Err::<usize, ProtocolError>(
                ProtocolError::BufferTooSmall { buffer_size: old(buffer)@.len() as usize },
            ) && final(buffer)@ == old(buffer)@,
            old(buffer)@.len() >= 5 ==> r == Ok::<usize, ProtocolError>(5) && final(buffer)@
                == splice(old(buffer)@, 0, spec_suback_bytes(*self)),
    {
        if buffer.len() < 5 {
            return Err(ProtocolError::BufferTooSmall { buffer_size: buffer.len() });
        }
        buffer[0] = 0x90u8;
        buffer[1] = 3u8;
        write_u16_be(self.packet_id, buffer, 2);
        buffer[4] = self.granted_qos.to_u8();
        assert(buffer@ =~= splice(old(buffer)@, 0, spec_suback_bytes(*self)));
        Ok(5)
    }

    fn decode(bytes: &[u8]) -> (r: Result<Self, ProtocolError>)
        ensures
            r == spec_decode_suback(bytes@),
    {
        if bytes.len() < 5 {
            return Err(ProtocolError::IncompletePacket { available: bytes.len() });
        }
        let t = bytes[0] / 16;
        if t != 9 {
            return Err(ProtocolError::InvalidPacketType { packet_type: t });
        }
        let (rl, _) = read_variable_length_at(bytes, 1)?;
        if rl != 3 {
            return Err(ProtocolError::InvalidPacketLength { expected: 3, actual: rl });
        }
        let packet_id = read_u16_be(bytes, 2);
        let granted_qos = QoS::from_u8(bytes[4])?;
        Ok(SubAckPacket { packet_id, granted_qos })
    }
}

/// A SUBACK reads back as itself, whatever follows it.
pub proof fn lemma_suback_roundtrip(p: SubAckPacket, rest: Seq<u8>)
    ensures
        spec_decode_suback(spec_suback_bytes(p) + rest) == Ok::<SubAckPacket, ProtocolError>(p),
{
    let s = spec_suback_bytes(p) + rest;
    assert(s.skip(1) =~= spec_encode_varint(3) + s.skip(2)) by {
        reveal_with_fuel(spec_encode_varint, 1);
    }
    lemma_varint_roundtrip(3, s.skip(2));
}

} // verus!
