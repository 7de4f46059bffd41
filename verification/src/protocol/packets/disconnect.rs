//! DISCONNECT: a packet with no fields.
use vstd::prelude::*;
use crate::protocol::error::ProtocolError;
use crate::protocol::packet_type::PacketType;
use crate::protocol::packets::{PacketEncoder, PacketFlagsConst, PacketTypeConst, check_fixed_header, decode_pid, encode_fixed2, encode_fixed_pid, lemma_fixed2_checks, lemma_fixed_pid_roundtrip, spec_check_fixed, spec_decode_pid, spec_fixed2, spec_fixed_pid};
use crate::protocol::utils::{be_bytes, be_value, lemma_varint_roundtrip, read_u16_be, read_variable_length_at, spec_encode_varint, spec_read_varint, splice, write_u16_be};

verus! {

/// DISCONNECT packet.
#[derive(Debug, Clone, Copy, PartialEq, Eq, Structural)]
pub struct DisconnectPacket;

impl Default for DisconnectPacket {
    fn default() -> (r: Self) {
        DisconnectPacket
    }
}

impl PacketTypeConst for DisconnectPacket {
    const PACKET_TYPE: PacketType = PacketType::Disconnect;
}

impl PacketFlagsConst for DisconnectPacket {
    const PACKET_FLAGS: u8 = 0;
}

impl PacketEncoder for DisconnectPacket {
    open spec fn encode_accepts(&self, buffer_len: nat) -> bool {
        true
    }

    open spec fn decode_accepts(bytes: Seq<u8>) -> bool {
        true
    }

    fn encode(&self, buffer: &mut [u8]) -> (r: Result<usize, ProtocolError>)
        ensures
            old(buffer)@.len() < 2 ==> r == Err::<usize, ProtocolError>(
                ProtocolError::BufferTooSmall { buffer_size: old(buffer)@.len() as usize },
            ) && final(buffer)@ == old(buffer)@,
            old(buffer)@.len() >= 2 ==> r == Ok::<usize, ProtocolError>(2) && final(buffer)@
                == splice(old(buffer)@, 0, spec_fixed2(0xE0u8)),
    {
        encode_fixed2(0xE0u8, buffer)
    }

    fn decode(bytes: &[u8]) -> (r: Result<Self, ProtocolError>)
        ensures
            r is Ok <==> spec_check_fixed(bytes@, 14, 2) is Ok,
            r matches Err(e) ==> spec_check_fixed(bytes@, 14, 2) == Err::<(), ProtocolError>(e),
    {
        check_fixed_header(bytes, 14, 2)?;
        Ok(DisconnectPacket)
    }
}

/// A DISCONNECT reads back, whatever follows it.
pub proof fn lemma_disconnect_roundtrip(rest: Seq<u8>)
    ensures
        spec_check_fixed(spec_fixed2(0xE0u8) + rest, 14, 2) == Ok::<(), ProtocolError>(()),
{
    lemma_fixed2_checks(0xE0u8, 14, rest);
}

} // verus!
