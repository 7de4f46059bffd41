//! UNSUBACK: a packet carrying only a packet identifier.
use vstd::prelude::*;
use crate::protocol::error::ProtocolError;
use crate::protocol::packet_type::PacketType;
use crate::protocol::packets::{PacketEncoder, PacketFlagsConst, PacketTypeConst, check_fixed_header, decode_pid, encode_fixed2, encode_fixed_pid, lemma_fixed2_checks, lemma_fixed_pid_roundtrip, spec_check_fixed, spec_decode_pid, spec_fixed2, spec_fixed_pid};
use crate::protocol::utils::{be_bytes, be_value, lemma_varint_roundtrip, read_u16_be, read_variable_length_at, spec_encode_varint, spec_read_varint, splice, write_u16_be};

verus! {

/// UNSUBACK packet.
#[derive(Debug, Clone, Copy, PartialEq, Eq, Structural)]
pub struct UnsubAckPacket {
    pub packet_id: u16,
}

impl PacketTypeConst for UnsubAckPacket {
    const PACKET_TYPE: PacketType = PacketType::UnsubAck;
}

impl PacketFlagsConst for UnsubAckPacket {
    const PACKET_FLAGS: u8 = 0;
}

impl PacketEncoder for UnsubAckPacket {
    open spec fn encode_accepts(&self, buffer_len: nat) -> bool {
        true
    }

    open spec fn decode_accepts(bytes: Seq<u8>) -> bool {
        true
    }

    fn encode(&self, buffer: &mut [u8]) -> (r: Result<usize, ProtocolError>)
        ensures
            old(buffer)@.len() < 4 ==> r == Err::<usize, ProtocolError>(
                ProtocolError::BufferTooSmall { buffer_size: old(buffer)@.len() as usize },
            ) && final(buffer)@ == old(buffer)@,
            old(buffer)@.len() >= 4 ==> r == Ok::<usize, ProtocolError>(4) && final(buffer)@
                == splice(old(buffer)@, 0, spec_fixed_pid(0xB0u8, self.packet_id)),
    {
        encode_fixed_pid(0xB0u8, self.packet_id, buffer)
    }

    fn decode(bytes: &[u8]) -> (r: Result<Self, ProtocolError>)
        ensures
            match (r, spec_decode_pid(bytes@, 11, false)) {
                (Ok(p), Ok(pid)) => p.packet_id == pid,
                (Err(a), Err(b)) => a == b,
                _ => false,
            },
    {
        let packet_id = decode_pid(bytes, 11, false)?;
        Ok(UnsubAckPacket { packet_id })
    }
}

/// A UNSUBACK reads back its packet identifier, whatever follows it.
pub proof fn lemma_unsuback_roundtrip(packet_id: u16, rest: Seq<u8>)
    ensures
        spec_decode_pid(spec_fixed_pid(0xB0u8, packet_id) + rest, 11, false) == Ok::<u16, ProtocolError>(packet_id),
{
    lemma_fixed_pid_roundtrip(0xB0u8, 11, packet_id, rest);
}

} // verus!
