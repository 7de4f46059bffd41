//! UNSUBSCRIBE: a request to drop a subscription to one topic filter.
use vstd::prelude::*;
use vstd::string::*;
use vstd::utf8::*;
use crate::protocol::error::ProtocolError;
use crate::protocol::heapless::HeaplessString;
use crate::protocol::packet_type::PacketType;
use crate::protocol::packets::{PacketEncoder, PacketFlagsConst, PacketTypeConst};
use crate::protocol::utils::{
    be_bytes, be_value, length_prefixed, lemma_be_roundtrip, lemma_read_prefixed,
    lemma_splice_concat, lemma_varint_len, lemma_varint_roundtrip, read_string, read_u16_be,
    read_variable_length_at, spec_encode_varint, spec_read_string, spec_read_varint,
    spec_varint_len, splice, write_binary, write_u16_be, write_variable_length_at,
};
use crate::topics::TopicName;

verus! {

/// The content of an UNSUBSCRIBE, as plain values.
pub ghost struct UnsubscribeView {
    pub packet_id: u16,
    pub topic_filter: Seq<u8>,
}

/// UNSUBSCRIBE packet with one topic filter.
#[derive(Debug, Clone, Copy, PartialEq, Eq)]
pub struct UnsubscribePacket<const MAX_TOPIC_NAME_LENGTH: usize> {
    pub packet_id: u16,
    pub topic_filter: TopicName<MAX_TOPIC_NAME_LENGTH>,
}

impl<const MAX_TOPIC_NAME_LENGTH: usize> View for UnsubscribePacket<MAX_TOPIC_NAME_LENGTH> {
    type V = UnsubscribeView;

    open spec fn view(&self) -> UnsubscribeView {
        UnsubscribeView { packet_id: self.packet_id, topic_filter: self.topic_filter@ }
    }
}

/// The remaining length of an UNSUBSCRIBE: packet identifier, length prefix and filter.
pub open spec fn unsubscribe_remaining_length(m: UnsubscribeView) -> int {
    4 + m.topic_filter.len() as int
}

/// The bytes of an UNSUBSCRIBE.
pub open spec fn spec_unsubscribe_bytes(m: UnsubscribeView) -> Seq<u8> {
    seq![0xA2u8] + spec_encode_varint(unsubscribe_remaining_length(m) as nat) + be_bytes(
        m.packet_id as int,
    ) + length_prefixed(m.topic_filter)
}

/// What encoding an UNSUBSCRIBE into a buffer of `buffer_len` bytes returns.
pub open spec fn spec_unsubscribe_encode(m: UnsubscribeView, buffer_len: nat) -> Result<
    usize,
    ProtocolError,
> {
    let vl = spec_varint_len(unsubscribe_remaining_length(m));
    if buffer_len == 0 {
        Err(ProtocolError::BufferTooSmall { buffer_size: 0 })
    } else if 1 + vl > buffer_len {
        Err(ProtocolError::BufferTooSmall { buffer_size: (buffer_len - 1) as usize })
    } else if 1 + vl + 2 > buffer_len {
        Err(ProtocolError::BufferTooSmall { buffer_size: buffer_len as usize })
    } else if 1 + vl + 4 + m.topic_filter.len() > buffer_len {
        Err(ProtocolError::BufferTooSmall { buffer_size: buffer_len as usize })
    } else {
        Ok((1 + vl + 4 + m.topic_filter.len()) as usize)
    }
}

/// What decoding an UNSUBSCRIBE yields, for topic filters of at most `topic_limit` bytes
/// (`max_topic` is the capacity reported when a filter is longer).
pub open spec fn spec_decode_unsubscribe(bytes: Seq<u8>, max_topic: usize, topic_limit: nat) -> Result<
    UnsubscribeView,
    ProtocolError,
> {
    let n = bytes.len() as int;
    if n == 0 {
        Err(ProtocolError::IncompletePacket { available: 0 })
    } else if bytes[0] / 16 != 10 {
        Err(ProtocolError::InvalidPacketType { packet_type: bytes[0] / 16 })
    } else {
        match spec_read_varint(bytes.skip(1)) {
            Err(e) => Err(e),
            Ok((rl, vl)) => {
                let start = 1 + vl;
                if start + 2 > n {
                    Err(ProtocolError::IncompletePacket { available: n as usize })
                } else if be_value(bytes[start], bytes[start + 1]) == 0 {
                    Err(ProtocolError::MissingPacketId)
                } else {
                    let (rs, off) = spec_read_string(bytes, start + 2);
                    match rs {
                        Err(e) => Err(e),
                        Ok(topic) => if topic.len() == 0 {
                            Err(ProtocolError::TopicEmpty)
                        } else if topic.len() > topic_limit {
                            Err(
                                ProtocolError::TopicNameLengthExceeded {
                                    max_length: max_topic,
                                    actual_length: topic.len() as usize,
                                },
                            )
                        } else if off - start != rl {
                            Err(
                                ProtocolError::InvalidPacketLength {
                                    expected: rl,
                                    actual: (off - start) as usize,
                                },
                            )
                        } else {
                            Ok(
                                UnsubscribeView {
                                    packet_id: be_value(bytes[start], bytes[start + 1]),
                                    topic_filter: topic,
                                },
                            )
                        },
                    }
                }
            },
        }
    }
}

impl<const MAX_TOPIC_NAME_LENGTH: usize> UnsubscribePacket<MAX_TOPIC_NAME_LENGTH> {
    /// What decoding yields for this packet's topic capacity.
    pub open spec fn spec_decode(bytes: Seq<u8>) -> Result<UnsubscribeView, ProtocolError> {
        spec_decode_unsubscribe(
            bytes,
            MAX_TOPIC_NAME_LENGTH,
            HeaplessString::<MAX_TOPIC_NAME_LENGTH>::limit(),
        )
    }
}

impl<const MAX_TOPIC_NAME_LENGTH: usize> PacketTypeConst for UnsubscribePacket<
    MAX_TOPIC_NAME_LENGTH,
> {
    const PACKET_TYPE: PacketType = PacketType::Unsubscribe;
}

impl<const MAX_TOPIC_NAME_LENGTH: usize> PacketFlagsConst for UnsubscribePacket<
    MAX_TOPIC_NAME_LENGTH,
> {
    const PACKET_FLAGS: u8 = 0b0010;
}

impl<const MAX_TOPIC_NAME_LENGTH: usize> PacketEncoder for UnsubscribePacket<MAX_TOPIC_NAME_LENGTH> {
    open spec fn encode_accepts(&self, buffer_len: nat) -> bool {
        true
    }

    open spec fn decode_accepts(bytes: Seq<u8>) -> bool {
        true
    }

    fn encode(&self, buffer: &mut [u8]) -> (r: Result<usize, ProtocolError>)
        ensures
            r == spec_unsubscribe_encode(self@, old(buffer)@.len()),
            r is Ok ==> final(buffer)@ == splice(old(buffer)@, 0, spec_unsubscribe_bytes(self@)),
    {
        let ghost m = self@;
        let blen = buffer.len();
        let topic = self.topic_filter.as_bytes();
        let tl = self.topic_filter.as_heapless().len();
        let remaining_length = 4 + tl;
        if blen == 0 {
            return Err(ProtocolError::BufferTooSmall { buffer_size: 0 });
        }
        buffer[0] = 0xA2u8;
        assert(buffer@ =~= splice(old(buffer)@, 0, seq![0xA2u8]));
        let vl = write_variable_length_at(remaining_length, buffer, 1)?;
        let ghost enc = spec_encode_varint(remaining_length as nat);
        proof {
            lemma_varint_len(remaining_length as nat);
            lemma_splice_concat(old(buffer)@, 0, seq![0xA2u8], enc);
        }
        let mut offset: usize = 1 + vl;
        if offset + 2 > blen {
            return Err(ProtocolError::BufferTooSmall { buffer_size: blen });
        }
        write_u16_be(self.packet_id, buffer, offset);
        proof {
            lemma_splice_concat(old(buffer)@, 0, seq![0xA2u8] + enc, be_bytes(self.packet_id as int));
        }
        offset = offset + 2;
        write_binary(topic, buffer, &mut offset)?;
        proof {
            lemma_splice_concat(
                old(buffer)@,
                0,
                seq![0xA2u8] + enc + be_bytes(self.packet_id as int),
                length_prefixed(m.topic_filter),
            );
        }
        Ok(offset)
    }

    fn decode(bytes: &[u8]) -> (r: Result<Self, ProtocolError>)
        ensures
            match (r, Self::spec_decode(bytes@)) {
                (Ok(p), Ok(v)) => p@ == v,
                (Err(a), Err(b)) => a == b,
                _ => false,
            },
    {
        let n = bytes.len();
        if n == 0 {
            return Err(ProtocolError::IncompletePacket { available: 0 });
        }
        let packet_type = bytes[0] / 16;
        if packet_type != 10 {
            return Err(ProtocolError::InvalidPacketType { packet_type });
        }
        let (remaining_length, var_len_bytes) = read_variable_length_at(bytes, 1)?;
        proof {
            crate::protocol::packets::lemma_read_varint_bound(bytes@.skip(1));
        }
        let start = 1 + var_len_bytes;
        if start + 2 > n {
            return Err(ProtocolError::IncompletePacket { available: n });
        }
        let packet_id = read_u16_be(bytes, start);
        if packet_id == 0 {
            return Err(ProtocolError::MissingPacketId);
        }
        let mut offset = start + 2;
        let topic_str = read_string(bytes, &mut offset)?;
        if topic_str.len() == 0 {
            return Err(ProtocolError::TopicEmpty);
        }
        let topic = match HeaplessString::<MAX_TOPIC_NAME_LENGTH>::from_str(topic_str) {
            Ok(s) => TopicName::new(s),
            Err(_) => {
                return Err(
                    ProtocolError::TopicNameLengthExceeded {
                        max_length: MAX_TOPIC_NAME_LENGTH,
                        actual_length: topic_str.len(),
                    },
                );
            },
        };
        let consumed = offset - start;
        if consumed != remaining_length {
            return Err(
                ProtocolError::InvalidPacketLength { expected: remaining_length, actual: consumed },
            );
        }
        Ok(UnsubscribePacket { packet_id, topic_filter: topic })
    }
}

/// The conditions under which an UNSUBSCRIBE reads back as itself.
pub open spec fn unsubscribe_well_formed(m: UnsubscribeView, topic_limit: nat) -> bool {
    &&& m.packet_id != 0
    &&& 0 < m.topic_filter.len() <= topic_limit
    &&& m.topic_filter.len() < 65536
    &&& valid_utf8(m.topic_filter)
}

/// A well-formed UNSUBSCRIBE reads back as itself, whatever follows it.
pub proof fn lemma_unsubscribe_roundtrip(
    m: UnsubscribeView,
    rest: Seq<u8>,
    max_topic: usize,
    topic_limit: nat,
)
    requires
        unsubscribe_well_formed(m, topic_limit),
    ensures
        spec_decode_unsubscribe(spec_unsubscribe_bytes(m) + rest, max_topic, topic_limit) == Ok::<
            UnsubscribeView,
            ProtocolError,
        >(m),
{
    let rl = unsubscribe_remaining_length(m);
    let enc = spec_encode_varint(rl as nat);
    let pid = be_bytes(m.packet_id as int);
    let s = spec_unsubscribe_bytes(m) + rest;
    lemma_varint_len(rl as nat);
    let vl = enc.len() as int;
    let start = 1 + vl;
    assert(s.skip(1) =~= enc + (pid + length_prefixed(m.topic_filter) + rest));
    lemma_varint_roundtrip(rl as nat, pid + length_prefixed(m.topic_filter) + rest);
    lemma_be_roundtrip(m.packet_id as int);
    assert(s[start] == pid[0]);
    assert(s[start + 1] == pid[1]);
    assert(s =~= (seq![0xA2u8] + enc + pid) + length_prefixed(m.topic_filter) + rest);
    lemma_read_prefixed(seq![0xA2u8] + enc + pid, m.topic_filter, rest);
}

} // verus!
