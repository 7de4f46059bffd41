//! CONNACK: the broker's answer to CONNECT.
use vstd::prelude::*;
use crate::protocol::error::ProtocolError;
use crate::protocol::packet_type::PacketType;
use crate::protocol::packets::{PacketEncoder, PacketFlagsConst, PacketTypeConst, check_fixed_header, decode_pid, encode_fixed2, encode_fixed_pid, lemma_fixed2_checks, lemma_fixed_pid_roundtrip, spec_check_fixed, spec_decode_pid, spec_fixed2, spec_fixed_pid};
use crate::protocol::utils::{be_bytes, be_value, lemma_varint_roundtrip, read_u16_be, read_variable_length_at, spec_encode_varint, spec_read_varint, splice, write_u16_be};

verus! {

/// The outcome a CONNACK reports.
#[derive(Debug, Clone, Copy, PartialEq, Eq, Structural)]
pub enum ConnectReturnCode {
    Accepted,
    UnacceptableProtocolVersion,
    IdentifierRejected,
    ServerUnavailable,
    BadUserNameOrPassword,
    NotAuthorized,
}

/// The wire value of a return code.
pub open spec fn return_code_value(c: ConnectReturnCode) -> u8 {
    match c {
        ConnectReturnCode::Accepted => 0,
        ConnectReturnCode::UnacceptableProtocolVersion => 1,
        ConnectReturnCode::IdentifierRejected => 2,
        ConnectReturnCode::ServerUnavailable => 3,
        ConnectReturnCode::BadUserNameOrPassword => 4,
        ConnectReturnCode::NotAuthorized => 5,
    }
}

/// The return code a wire value stands for, or the error for an unknown one.
pub open spec fn spec_return_code_from(code: u8) -> Result<ConnectReturnCode, ProtocolError> {
    if code == 0 {
        Ok(ConnectReturnCode::Accepted)
    } else if code == 1 {
        Ok(ConnectReturnCode::UnacceptableProtocolVersion)
    } else if code == 2 {
        Ok(ConnectReturnCode::IdentifierRejected)
    } else if code == 3 {
        Ok(ConnectReturnCode::ServerUnavailable)
    } else if code == 4 {
        Ok(ConnectReturnCode::BadUserNameOrPassword)
    } else if code == 5 {
        Ok(ConnectReturnCode::NotAuthorized)
    } else {
        Err(ProtocolError::InvalidConnectReturnCode { return_code: code })
    }
}

impl ConnectReturnCode {
    /// Reads a return code from its wire value.
    pub fn from_u8(code: u8) -> (r: Result<Self, ProtocolError>)
        ensures
            r == spec_return_code_from(code),
    {
        match code {
            0 => Ok(ConnectReturnCode::Accepted),
            1 => Ok(ConnectReturnCode::UnacceptableProtocolVersion),
            2 => Ok(ConnectReturnCode::IdentifierRejected),
            3 => Ok(ConnectReturnCode::ServerUnavailable),
            4 => Ok(ConnectReturnCode::BadUserNameOrPassword),
            5 => Ok(ConnectReturnCode::NotAuthorized),
            _ => Err(ProtocolError::InvalidConnectReturnCode { return_code: code }),
        }
    }

    /// The wire value of this code.
    pub fn to_u8(self) -> (r: u8)
        ensures
            r == return_code_value(self),
    {
        match self {
            ConnectReturnCode::Accepted => 0,
            ConnectReturnCode::UnacceptableProtocolVersion => 1,
            ConnectReturnCode::IdentifierRejected => 2,
            ConnectReturnCode::ServerUnavailable => 3,
            ConnectReturnCode::BadUserNameOrPassword => 4,
            ConnectReturnCode::NotAuthorized => 5,
        }
    }
}

impl Default for ConnectReturnCode {
    fn default() -> (r: Self)
        ensures
            r == ConnectReturnCode::Accepted,
    {
        ConnectReturnCode::Accepted
    }
}

impl TryFrom<u8> for ConnectReturnCode {
    type Error = ProtocolError;

    fn try_from(code: u8) -> (r: Result<Self, ProtocolError>) {
        Self::from_u8(code)
    }
}

impl vstd::std_specs::convert::TryFromSpecImpl<u8> for ConnectReturnCode {
    open spec fn obeys_try_from_spec() -> bool {
        true
    }

    open spec fn try_from_spec(code: u8) -> Result<Self, ProtocolError> {
        spec_return_code_from(code)
    }
}

/// CONNACK packet.
#[derive(Debug, Clone, Copy, PartialEq, Eq, Structural)]
pub struct ConnAckPacket {
    pub session_present: bool,
    pub return_code: ConnectReturnCode,
}

impl Default for ConnAckPacket {
    fn default() -> (r: Self)
        ensures
            r == (ConnAckPacket { session_present: false, return_code: ConnectReturnCode::Accepted }),
    {
        ConnAckPacket { session_present: false, return_code: ConnectReturnCode::Accepted }
    }
}

/// The four bytes of a CONNACK.
pub open spec fn spec_connack_bytes(p: ConnAckPacket) -> Seq<u8> {
    seq![0x20u8, 2u8, if p.session_present { 1u8 } else { 0u8 }, return_code_value(p.return_code)]
}

/// What decoding a CONNACK yields.
pub open spec fn spec_decode_connack(bytes: Seq<u8>) -> Result<ConnAckPacket, ProtocolError> {
    match spec_check_fixed(bytes, 2, 4) {
        Err(e) => Err(e),
        Ok(()) => {
            let flag = bytes[2];
            if flag != 0 && flag != 1 {
                Err(ProtocolError::InvalidSessionPresentFlag { flag })
            } else {
                match spec_return_code_from(bytes[3]) {
                    Err(e) => Err(e),
                    Ok(c) => Ok(ConnAckPacket { session_present: flag == 1, return_code: c }),
                }
            }
        },
    }
}

impl PacketTypeConst for ConnAckPacket {
    const PACKET_TYPE: PacketType = PacketType::ConnAck;
}

impl PacketFlagsConst for ConnAckPacket {
    const PACKET_FLAGS: u8 = 0;
}

impl PacketEncoder for ConnAckPacket {
    open spec fn encode_accepts(&self, buffer_len: nat) -> bool {
        true
    }

    open spec fn decode_accepts(bytes: Seq<u8>) -> bool {
        true
    }

    fn encode(&self, buffer: &mut [u8]) -> (r: Result<usize, ProtocolError>)
        ensures
            old(buffer)@.len() < 4 ==> r == Err::<usize, ProtocolError>(
                ProtocolError::BufferTooSmall { buffer_size: old(buffer)@.len() as usize },
            ) && final(buffer)@ == old(buffer)@,
            old(buffer)@.len() >= 4 ==> r == Ok::<usize, ProtocolError>(4) && final(buffer)@
                == splice(old(buffer)@, 0, spec_connack_bytes(*self)),
    {
        if buffer.len() < 4 {
            return Err(ProtocolError::BufferTooSmall { buffer_size: buffer.len() });
        }
        buffer[0] = 0x20u8;
        buffer[1] = 2u8;
        buffer[2] = if self.session_present { 1u8 } else { 0u8 };
        buffer[3] = self.return_code.to_u8();
        assert(buffer@ =~= splice(old(buffer)@, 0, spec_connack_bytes(*self)));
        Ok(4)
    }

    fn decode(bytes: &[u8]) -> (r: Result<Self, ProtocolError>)
        ensures
            r == spec_decode_connack(bytes@),
    {
        check_fixed_header(bytes, 2, 4)?;
        let flag = bytes[2];
        if flag != 0 && flag != 1 {
            return Err(ProtocolError::InvalidSessionPresentFlag { flag });
        }
        let return_code = ConnectReturnCode::from_u8(bytes[3])?;
        Ok(ConnAckPacket { session_present: flag == 1, return_code })
    }
}

/// A CONNACK reads back as itself, whatever follows it.
pub proof fn lemma_connack_roundtrip(p: ConnAckPacket, rest: Seq<u8>)
    ensures
        spec_decode_connack(spec_connack_bytes(p) + rest) == Ok::<ConnAckPacket, ProtocolError>(p),
{
    let s = spec_connack_bytes(p) + rest;
    assert(s.skip(1) =~= spec_encode_varint(2) + (s.skip(2))) by {
        reveal_with_fuel(spec_encode_varint, 1);
    }
    lemma_varint_roundtrip(2, s.skip(2));
}

} // verus!
