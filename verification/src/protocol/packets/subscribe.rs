//! SUBSCRIBE: a request to receive messages on one topic filter.
//!
//! `encode` and `decode` work on the packet body (identifier, filter, requested QoS);
//! `encode_frame` and `decode_frame` add and check the fixed header.
use vstd::prelude::*;
use vstd::string::*;
use vstd::utf8::*;
use crate::protocol::error::{PacketEncodingError, ProtocolError};
use crate::protocol::heapless::HeaplessString;
use crate::protocol::packet_type::PacketType;
use crate::protocol::packets::{PacketFlagsConst, PacketTypeConst};
use crate::protocol::qos::{qos_code, spec_qos_from, QoS};
use crate::protocol::utils::{
    be_bytes, be_value, length_prefixed, lemma_be_roundtrip, lemma_read_prefixed,
    lemma_splice_concat, lemma_varint_len, lemma_varint_roundtrip, read_string, read_u16_be,
    read_variable_length_at, spec_encode_varint, spec_read_string, spec_read_varint,
    spec_varint_len, splice, write_binary, write_u16_be, write_variable_length_at,
};
use crate::topics::TopicName;

verus! {

/// The content of a SUBSCRIBE, as plain values.
pub ghost struct SubscribeView {
    pub packet_id: u16,
    pub topic_filter: Seq<u8>,
    pub requested_qos: QoS,
}

/// SUBSCRIBE packet with one topic filter.
#[derive(Debug, Clone, Copy, PartialEq, Eq)]
pub struct SubscribePacket<const MAX_TOPIC_NAME_LENGTH: usize> {
    pub packet_id: u16,
    pub topic_filter: TopicName<MAX_TOPIC_NAME_LENGTH>,
    pub requested_qos: QoS,
}

impl<const MAX_TOPIC_NAME_LENGTH: usize> View for SubscribePacket<MAX_TOPIC_NAME_LENGTH> {
    type V = SubscribeView;

    open spec fn view(&self) -> SubscribeView {
        SubscribeView {
            packet_id: self.packet_id,
            topic_filter: self.topic_filter@,
            requested_qos: self.requested_qos,
        }
    }
}

/// The body of a SUBSCRIBE: identifier, length-prefixed filter, requested QoS.
pub open spec fn subscribe_body(m: SubscribeView) -> Seq<u8> {
    be_bytes(m.packet_id as int) + length_prefixed(m.topic_filter) + seq![qos_code(m.requested_qos)]
}

/// What decoding a SUBSCRIBE body yields for filters of at most `topic_limit` bytes;
/// `None` where it is rejected.
pub open spec fn spec_decode_subscribe_body(bytes: Seq<u8>, topic_limit: nat) -> Option<SubscribeView> {
    let n = bytes.len() as int;
    if n < 2 || be_value(bytes[0], bytes[1]) == 0 {
        None
    } else {
        let (rs, off) = spec_read_string(bytes, 2);
        match rs {
            Err(_) => None,
            Ok(topic) => if topic.len() == 0 || off + 1 > n || topic.len() > topic_limit {
                None
            } else {
                match spec_qos_from(bytes[off]) {
                    Err(_) => None,
                    Ok(q) => Some(
                        SubscribeView {
                            packet_id: be_value(bytes[0], bytes[1]),
                            topic_filter: topic,
                            requested_qos: q,
                        },
                    ),
                }
            },
        }
    }
}

/// The bytes of a whole SUBSCRIBE packet.
pub open spec fn spec_subscribe_frame(m: SubscribeView) -> Seq<u8> {
    seq![0x82u8] + spec_encode_varint((5 + m.topic_filter.len()) as nat) + subscribe_body(m)
}

/// What encoding a whole SUBSCRIBE into a buffer of `buffer_len` bytes returns.
pub open spec fn spec_subscribe_frame_encode(m: SubscribeView, buffer_len: nat) -> Result<
    usize,
    ProtocolError,
> {
    let vl = spec_varint_len(5 + m.topic_filter.len() as int);
    let total = 1 + vl + 5 + m.topic_filter.len();
    if buffer_len == 0 {
        Err(ProtocolError::BufferTooSmall { buffer_size: 0 })
    } else if 1 + vl > buffer_len {
        Err(ProtocolError::BufferTooSmall { buffer_size: (buffer_len - 1) as usize })
    } else if total > buffer_len {
        Err(ProtocolError::BufferTooSmall { buffer_size: buffer_len as usize })
    } else {
        Ok(total as usize)
    }
}

/// What decoding a whole SUBSCRIBE packet yields, for filters of at most `topic_limit`
/// bytes (`max_topic` is the capacity reported when a filter is longer).
pub open spec fn spec_decode_subscribe_frame(bytes: Seq<u8>, max_topic: usize, topic_limit: nat) -> Result<
    SubscribeView,
    ProtocolError,
> {
    let n = bytes.len() as int;
    if n == 0 {
        Err(ProtocolError::IncompletePacket { available: 0 })
    } else if bytes[0] / 16 != 8 {
        Err(ProtocolError::InvalidPacketType { packet_type: bytes[0] / 16 })
    } else {
        match spec_read_varint(bytes.skip(1)) {
            Err(e) => Err(e),
            Ok((rl, vl)) => {
                let start = 1 + vl;
                if start + 2 > n {
                    Err(ProtocolError::IncompletePacket { available: n as usize })
                } else if be_value(bytes[start], bytes[start + 1]) == 0 {
                    Err(ProtocolError::MissingPacketId)
                } else {
                    let (rs, off) = spec_read_string(bytes, start + 2);
                    match rs {
                        Err(e) => Err(e),
                        Ok(topic) => if topic.len() == 0 {
                            Err(ProtocolError::TopicEmpty)
                        } else if off + 1 > n {
                            Err(ProtocolError::IncompletePacket { available: n as usize })
                        } else if topic.len() > topic_limit {
                            Err(
                                ProtocolError::TopicNameLengthExceeded {
                                    max_length: max_topic,
                                    actual_length: topic.len() as usize,
                                },
                            )
                        } else {
                            match spec_qos_from(bytes[off]) {
                                Err(e) => Err(e),
                                Ok(q) => if off + 1 - start != rl {
                                    Err(
                                        ProtocolError::InvalidPacketLength {
                                            expected: rl,
                                            actual: (off + 1 - start) as usize,
                                        },
                                    )
                                } else {
                                    Ok(
                                        SubscribeView {
                                            packet_id: be_value(bytes[start], bytes[start + 1]),
                                            topic_filter: topic,
                                            requested_qos: q,
                                        },
                                    )
                                },
                            }
                        },
                    }
                }
            },
        }
    }
}

impl<const MAX_TOPIC_NAME_LENGTH: usize> PacketTypeConst for SubscribePacket<MAX_TOPIC_NAME_LENGTH> {
    const PACKET_TYPE: PacketType = PacketType::Subscribe;
}

impl<const MAX_TOPIC_NAME_LENGTH: usize> PacketFlagsConst for SubscribePacket<MAX_TOPIC_NAME_LENGTH> {
    const PACKET_FLAGS: u8 = 0b0010;
}

impl<const MAX_TOPIC_NAME_LENGTH: usize> SubscribePacket<MAX_TOPIC_NAME_LENGTH> {
    /// The longest filter this packet type holds.
    pub open spec fn topic_limit() -> nat {
        HeaplessString::<MAX_TOPIC_NAME_LENGTH>::limit()
    }

    /// Writes the body at the start of `buffer` and returns its length.
    pub fn encode(&self, buffer: &mut [u8]) -> (r: Result<usize, PacketEncodingError>)
        ensures
            final(buffer)@.len() == old(buffer)@.len(),
            (r is Ok) <==> 5 + self@.topic_filter.len() <= old(buffer)@.len(),
            r matches Ok(n) ==> n == 5 + self@.topic_filter.len() && final(buffer)@ == splice(
                old(buffer)@,
                0,
                subscribe_body(self@),
            ),
    {
        let ghost m = self@;
        let blen = buffer.len();
        if blen < 2 {
            return Err(PacketEncodingError::Other);
        }
        write_u16_be(self.packet_id, buffer, 0);
        let mut offset: usize = 2;
        if write_binary(self.topic_filter.as_bytes(), buffer, &mut offset).is_err() {
            return Err(PacketEncodingError::Other);
        }
        proof {
            lemma_splice_concat(old(buffer)@, 0, be_bytes(self.packet_id as int), length_prefixed(m.topic_filter));
        }
        if offset >= blen {
            return Err(PacketEncodingError::Other);
        }
        buffer[offset] = self.requested_qos.to_u8();
        proof {
            let before = be_bytes(self.packet_id as int) + length_prefixed(m.topic_filter);
            assert(buffer@ =~= splice(old(buffer)@, 0, before + seq![qos_code(m.requested_qos)]));
        }
        Ok(offset + 1)
    }

    /// Reads a body; every rejection is the same error.
    pub fn decode(bytes: &[u8]) -> (r: Result<Self, PacketEncodingError>)
        ensures
            match (r, spec_decode_subscribe_body(bytes@, Self::topic_limit())) {
                (Ok(p), Some(v)) => p@ == v,
                (Err(e), None) => e == PacketEncodingError::Other,
                _ => false,
            },
    {
        let n = bytes.len();
        if n < 2 {
            return Err(PacketEncodingError::Other);
        }
        let packet_id = read_u16_be(bytes, 0);
        if packet_id == 0 {
            return Err(PacketEncodingError::Other);
        }
        let mut offset: usize = 2;
        let topic_str = match read_string(bytes, &mut offset) {
            Ok(s) => s,
            Err(_) => {
                return Err(PacketEncodingError::Other);
            },
        };
        if topic_str.len() == 0 || offset >= n {
            return Err(PacketEncodingError::Other);
        }
        let topic = match HeaplessString::<MAX_TOPIC_NAME_LENGTH>::from_str(topic_str) {
            Ok(s) => TopicName::new(s),
            Err(_) => {
                return Err(PacketEncodingError::Other);
            },
        };
        let requested_qos = match QoS::from_u8(bytes[offset]) {
            Ok(q) => q,
            Err(_) => {
                return Err(PacketEncodingError::Other);
            },
        };
        Ok(SubscribePacket { packet_id, topic_filter: topic, requested_qos })
    }

    /// Writes the whole packet, fixed header included, and returns its length.
    pub fn encode_frame(&self, buffer: &mut [u8]) -> (r: Result<usize, ProtocolError>)
        ensures
            final(buffer)@.len() == old(buffer)@.len(),
            r == spec_subscribe_frame_encode(self@, old(buffer)@.len()),
            r is Ok ==> final(buffer)@ == splice(old(buffer)@, 0, spec_subscribe_frame(self@)),
    {
        let ghost m = self@;
        let blen = buffer.len();
        let tl = self.topic_filter.as_heapless().len();
        let remaining_length = 5 + tl;
        if blen == 0 {
            return Err(ProtocolError::BufferTooSmall { buffer_size: 0 });
        }
        buffer[0] = 0x82u8;
        assert(buffer@ =~= splice(old(buffer)@, 0, seq![0x82u8]));
        let vl = write_variable_length_at(remaining_length, buffer, 1)?;
        let ghost enc = spec_encode_varint(remaining_length as nat);
        proof {
            lemma_varint_len(remaining_length as nat);
            lemma_splice_concat(old(buffer)@, 0, seq![0x82u8], enc);
        }
        let start: usize = 1 + vl;
        if start + remaining_length > blen {
            return Err(ProtocolError::BufferTooSmall { buffer_size: blen });
        }
        self.write_body_at(buffer, start);
        proof {
            lemma_splice_concat(old(buffer)@, 0, seq![0x82u8] + enc, subscribe_body(m));
        }
        Ok(start + remaining_length)
    }

    /// Writes the body at `start`, where it fits.
    fn write_body_at(&self, buffer: &mut [u8], start: usize)
        requires
            start + 5 + self@.topic_filter.len() <= old(buffer)@.len(),
        ensures
            final(buffer)@ == splice(old(buffer)@, start as int, subscribe_body(self@)),
    {
        let ghost m = self@;
        let _blen = buffer.len();
        write_u16_be(self.packet_id, buffer, start);
        let mut offset: usize = start + 2;
        let w = write_binary(self.topic_filter.as_bytes(), buffer, &mut offset);
        assert(w is Ok);
        proof {
            lemma_splice_concat(old(buffer)@, start as int, be_bytes(self.packet_id as int), length_prefixed(m.topic_filter));
        }
        let ghost before = be_bytes(self.packet_id as int) + length_prefixed(m.topic_filter);
        buffer[offset] = self.requested_qos.to_u8();
        proof {
            assert(buffer@ =~= splice(old(buffer)@, start as int, before + seq![qos_code(m.requested_qos)]));
        }
    }

    /// Reads a whole packet, fixed header included.
    pub fn decode_frame(bytes: &[u8]) -> (r: Result<Self, ProtocolError>)
        ensures
            match (
                r,
                spec_decode_subscribe_frame(bytes@, MAX_TOPIC_NAME_LENGTH, Self::topic_limit()),
            ) {
                (Ok(p), Ok(v)) => p@ == v,
                (Err(a), Err(b)) => a == b,
                _ => false,
            },
    {
        let n = bytes.len();
        if n == 0 {
            return Err(ProtocolError::IncompletePacket { available: 0 });
        }
        let packet_type = bytes[0] / 16;
        if packet_type != 8 {
            return Err(ProtocolError::InvalidPacketType { packet_type });
        }
        let (remaining_length, var_len_bytes) = read_variable_length_at(bytes, 1)?;
        proof {
            crate::protocol::packets::lemma_read_varint_bound(bytes@.skip(1));
        }
        let start = 1 + var_len_bytes;
        if start + 2 > n {
            return Err(ProtocolError::IncompletePacket { available: n });
        }
        let packet_id = read_u16_be(bytes, start);
        if packet_id == 0 {
            return Err(ProtocolError::MissingPacketId);
        }
        let mut offset = start + 2;
        let topic_str = read_string(bytes, &mut offset)?;
        if topic_str.len() == 0 {
            return Err(ProtocolError::TopicEmpty);
        }
        if offset >= n {
            return Err(ProtocolError::IncompletePacket { available: n });
        }
        let topic = match HeaplessString::<MAX_TOPIC_NAME_LENGTH>::from_str(topic_str) {
            Ok(s) => TopicName::new(s),
            Err(_) => {
                return Err(
                    ProtocolError::TopicNameLengthExceeded {
                        max_length: MAX_TOPIC_NAME_LENGTH,
                        actual_length: topic_str.len(),
                    },
                );
            },
        };
        let requested_qos = QoS::from_u8(bytes[offset])?;
        let consumed = offset + 1 - start;
        if consumed != remaining_length {
            return Err(
                ProtocolError::InvalidPacketLength { expected: remaining_length, actual: consumed },
            );
        }
        Ok(SubscribePacket { packet_id, topic_filter: topic, requested_qos })
    }
}

/// The conditions under which a SUBSCRIBE reads back as itself.
pub open spec fn subscribe_well_formed(m: SubscribeView, topic_limit: nat) -> bool {
    &&& m.packet_id != 0
    &&& 0 < m.topic_filter.len() <= topic_limit
    &&& m.topic_filter.len() < 65536
    &&& valid_utf8(m.topic_filter)
}

/// A well-formed SUBSCRIBE body reads back as itself, whatever follows it.
#[verifier::spinoff_prover]
pub proof fn lemma_subscribe_body_roundtrip(m: SubscribeView, rest: Seq<u8>, topic_limit: nat)
    requires
        subscribe_well_formed(m, topic_limit),
    ensures
        spec_decode_subscribe_body(subscribe_body(m) + rest, topic_limit) == Some(m),
{
    let pid = be_bytes(m.packet_id as int);
    let s = subscribe_body(m) + rest;
    lemma_be_roundtrip(m.packet_id as int);
    assert(s[0] == pid[0]);
    assert(s[1] == pid[1]);
    assert(s =~= pid + length_prefixed(m.topic_filter) + (seq![qos_code(m.requested_qos)] + rest));
    lemma_read_prefixed(pid, m.topic_filter, seq![qos_code(m.requested_qos)] + rest);
    let off = 4 + m.topic_filter.len() as int;
    assert(s[off] == qos_code(m.requested_qos));
}

/// A well-formed SUBSCRIBE packet reads back as itself, whatever follows it.
#[verifier::rlimit(30)]
pub proof fn lemma_subscribe_frame_roundtrip(
    m: SubscribeView,
    rest: Seq<u8>,
    max_topic: usize,
    topic_limit: nat,
)
    requires
        subscribe_well_formed(m, topic_limit),
    ensures
        spec_decode_subscribe_frame(spec_subscribe_frame(m) + rest, max_topic, topic_limit) == Ok::<
            SubscribeView,
            ProtocolError,
        >(m),
{
    let rl = 5 + m.topic_filter.len();
    let enc = spec_encode_varint(rl as nat);
    let pid = be_bytes(m.packet_id as int);
    let q = seq![qos_code(m.requested_qos)];
    let s = spec_subscribe_frame(m) + rest;
    lemma_varint_len(rl as nat);
    let vl = enc.len() as int;
    let start = 1 + vl;
    assert(s.skip(1) =~= enc + (subscribe_body(m) + rest));
    lemma_varint_roundtrip(rl as nat, subscribe_body(m) + rest);
    lemma_be_roundtrip(m.packet_id as int);
    assert(s[start] == pid[0]);
    assert(s[start + 1] == pid[1]);
    assert(s =~= (seq![0x82u8] + enc + pid) + length_prefixed(m.topic_filter) + (q + rest));
    lemma_read_prefixed(seq![0x82u8] + enc + pid, m.topic_filter, q + rest);
    let off = start + 4 + m.topic_filter.len();
    assert(s[off] == qos_code(m.requested_qos));
}

} // verus!
