//! PUBLISH: an application message on a topic.
use vstd::prelude::*;
use vstd::string::*;
use vstd::utf8::*;
use crate::protocol::error::ProtocolError;
use crate::protocol::heapless::{HeaplessString, HeaplessVec};
use crate::protocol::packet_type::PacketType;
use crate::protocol::packets::{PacketEncoder, PacketFlagsDynamic, PacketTypeConst};
use crate::protocol::qos::{qos_code, spec_qos_from, QoS};
use crate::protocol::utils::{
    be_bytes, be_value, length_prefixed, lemma_read_prefixed, lemma_varint_len,
    lemma_varint_roundtrip, read_string, read_u16_be, read_variable_length_at, spec_encode_varint,
    spec_read_string, spec_read_varint, spec_varint_len, splice, variable_length_length,
    write_binary, write_u16_be, write_variable_length_at, copy_bytes, MAX_VARIABLE_LENGTH,
};
use crate::topics::TopicName;

verus! {

/// The flags a PUBLISH carries in the low nibble of its first byte.
#[derive(Debug, Copy, Clone, Eq, PartialEq, Structural)]
pub struct PublishFlags {
    pub dup: bool,
    pub qos: QoS,
    pub retain: bool,
}

/// The flags nibble: DUP in bit 3, QoS in bits 2-1, RETAIN in bit 0.
pub open spec fn spec_nibble(dup: bool, qos: QoS, retain: bool) -> u8 {
    ((if dup { 8int } else { 0int }) + qos_code(qos) as int * 2 + (if retain { 1int } else { 0int })) as u8
}

/// What reading a flags nibble yields.
pub open spec fn spec_flags_from(nibble: u8) -> Result<PublishFlags, ProtocolError> {
    match spec_qos_from((nibble / 2) % 4) {
        Err(e) => Err(e),
        Ok(q) => Ok(PublishFlags { dup: (nibble / 8) % 2 == 1, qos: q, retain: nibble % 2 == 1 }),
    }
}

impl PublishFlags {
    /// The first byte of a PUBLISH with these flags.
    pub fn publish_header_byte(self) -> (r: u8)
        ensures
            r == 48 + spec_nibble(self.dup, self.qos, self.retain),
    {
        48 + self.to_nibble()
    }

    /// The flags as a nibble.
    pub fn to_nibble(self) -> (r: u8)
        ensures
            r == spec_nibble(self.dup, self.qos, self.retain),
            r < 16,
    {
        let dup: u8 = if self.dup { 8 } else { 0 };
        let retain: u8 = if self.retain { 1 } else { 0 };
        dup + self.qos.to_u8() * 2 + retain
    }

    /// Reads the flags from a nibble; fails on the QoS value 3.
    pub fn from_nibble(nibble: u8) -> (r: Result<Self, ProtocolError>)
        ensures
            r == spec_flags_from(nibble),
    {
        let qos = QoS::from_u8((nibble / 2) % 4)?;
        Ok(PublishFlags { dup: (nibble / 8) % 2 == 1, qos, retain: nibble % 2 == 1 })
    }
}

/// The content of a PUBLISH, as plain values.
pub ghost struct PublishView {
    pub topic: Seq<u8>,
    pub packet_id: Option<u16>,
    pub payload: Seq<u8>,
    pub qos: QoS,
    pub dup: bool,
    pub retain: bool,
}

/// PUBLISH packet.
#[derive(Debug, Clone, Copy, PartialEq, Eq)]
pub struct PublishPacket<const MAX_TOPIC_NAME_LENGTH: usize, const MAX_PAYLOAD_SIZE: usize> {
    pub topic_name: TopicName<MAX_TOPIC_NAME_LENGTH>,
    pub packet_id: Option<u16>,
    pub payload: HeaplessVec<u8, MAX_PAYLOAD_SIZE>,
    pub qos: QoS,
    pub dup: bool,
    pub retain: bool,
}

impl<const MAX_TOPIC_NAME_LENGTH: usize, const MAX_PAYLOAD_SIZE: usize> View for PublishPacket<
    MAX_TOPIC_NAME_LENGTH,
    MAX_PAYLOAD_SIZE,
> {
    type V = PublishView;

    open spec fn view(&self) -> PublishView {
        PublishView {
            topic: self.topic_name@,
            packet_id: self.packet_id,
            payload: self.payload@,
            qos: self.qos,
            dup: self.dup,
            retain: self.retain,
        }
    }
}

/// The remaining length of a PUBLISH.
pub open spec fn publish_remaining_length(m: PublishView) -> int {
    2 + m.topic.len() + (if m.qos != QoS::AtMostOnce { 2int } else { 0int }) + m.payload.len()
}

/// The bytes that follow the remaining-length field of a PUBLISH.
pub open spec fn publish_body(m: PublishView) -> Seq<u8> {
    length_prefixed(m.topic) + (if m.qos != QoS::AtMostOnce {
        be_bytes(m.packet_id.unwrap() as int)
    } else {
        Seq::empty()
    }) + m.payload
}

/// The bytes of a PUBLISH.
pub open spec fn spec_publish_bytes(m: PublishView) -> Seq<u8> {
    seq![(48 + spec_nibble(m.dup, m.qos, m.retain)) as u8] + spec_encode_varint(
        publish_remaining_length(m) as nat,
    ) + publish_body(m)
}

/// What encoding a PUBLISH into a buffer of `buffer_len` bytes returns.
pub open spec fn spec_publish_encode(m: PublishView, buffer_len: nat) -> Result<usize, ProtocolError> {
    let rl = publish_remaining_length(m);
    let vl = spec_varint_len(rl);
    let after_topic = 1 + vl + 2 + m.topic.len();
    let after_pid = after_topic + (if m.qos != QoS::AtMostOnce { 2int } else { 0int });
    let total = after_pid + m.payload.len();
    if buffer_len == 0 {
        Err(ProtocolError::BufferTooSmall { buffer_size: 0 })
    } else if rl > MAX_VARIABLE_LENGTH {
        Err(ProtocolError::InvalidPacketLength { expected: MAX_VARIABLE_LENGTH, actual: rl as usize })
    } else if 1 + vl > buffer_len {
        Err(ProtocolError::BufferTooSmall { buffer_size: (buffer_len - 1) as usize })
    } else if after_topic > buffer_len {
        Err(ProtocolError::BufferTooSmall { buffer_size: buffer_len as usize })
    } else if m.qos != QoS::AtMostOnce && after_pid > buffer_len {
        Err(ProtocolError::BufferTooSmall { buffer_size: buffer_len as usize })
    } else if m.qos != QoS::AtMostOnce && m.packet_id is None {
        Err(ProtocolError::MissingPacketId)
    } else if total > buffer_len {
        Err(ProtocolError::BufferTooSmall { buffer_size: buffer_len as usize })
    } else {
        Ok(total as usize)
    }
}

/// The limits a PUBLISH decoder checks against: the capacities it reports in errors and
/// the lengths it can hold.
pub ghost struct PublishLimits {
    pub max_topic: usize,
    pub topic_limit: nat,
    pub max_payload: usize,
    pub payload_limit: nat,
}

/// The last stage of decoding a PUBLISH: the packet identifier and the payload, which runs
/// up to `end`; the topic has been read and the input continues at `off`.
pub open spec fn publish_decode_tail(
    bytes: Seq<u8>,
    flags: PublishFlags,
    topic: Seq<u8>,
    off: int,
    end: int,
    lim: PublishLimits,
) -> Option<Result<PublishView, ProtocolError>> {
    let n = bytes.len() as int;
    let has_pid = flags.qos != QoS::AtMostOnce;
    if has_pid && off + 2 > n {
        Some(Err(ProtocolError::IncompletePacket { available: n as usize }))
    } else if has_pid && be_value(bytes[off], bytes[off + 1]) == 0 {
        Some(Err(ProtocolError::MissingPacketId))
    } else {
        let pid = if has_pid {
            Some(be_value(bytes[off], bytes[off + 1]))
        } else {
            None
        };
        let body = if has_pid { off + 2 } else { off };
        if end > n {
            Some(Err(ProtocolError::IncompletePacket { available: n as usize }))
        } else if body > end {
            None
        } else if end - body > lim.payload_limit {
            Some(Err(ProtocolError::PayloadTooLarge { max_size: lim.max_payload, actual_size: (end - body) as usize }))
        } else {
            Some(Ok(PublishView {
                topic,
                packet_id: pid,
                payload: bytes.subrange(body, end),
                qos: flags.qos,
                dup: flags.dup,
                retain: flags.retain,
            }))
        }
    }
}

/// The middle stage of decoding a PUBLISH: the topic at `start`, the packet ending at `end`.
pub open spec fn publish_decode_topic(
    bytes: Seq<u8>,
    flags: PublishFlags,
    start: int,
    end: int,
    lim: PublishLimits,
) -> Option<Result<PublishView, ProtocolError>> {
    let (rs, off) = spec_read_string(bytes, start);
    match rs {
        Err(e) => Some(Err(e)),
        Ok(topic) => if topic.len() == 0 {
            Some(Err(ProtocolError::TopicEmpty))
        } else if topic.len() > lim.topic_limit {
            Some(Err(ProtocolError::TopicNameLengthExceeded { max_length: lim.max_topic, actual_length: topic.len() as usize }))
        } else {
            publish_decode_tail(bytes, flags, topic, off, end, lim)
        },
    }
}

/// What decoding a PUBLISH yields; `None` where the decoder cannot take the input (the
/// remaining length ends the packet before the topic and packet identifier end).
pub open spec fn spec_decode_publish(bytes: Seq<u8>, lim: PublishLimits) -> Option<Result<PublishView, ProtocolError>> {
    if bytes.len() == 0 {
        Some(Err(ProtocolError::IncompletePacket { available: 0 }))
    } else if bytes[0] / 16 != 3 {
        Some(Err(ProtocolError::InvalidPacketType { packet_type: bytes[0] / 16 }))
    } else {
        match spec_flags_from(bytes[0] % 16) {
            Err(e) => Some(Err(e)),
            Ok(flags) => match spec_read_varint(bytes.skip(1)) {
                Err(e) => Some(Err(e)),
                Ok((rl, vl)) => publish_decode_topic(bytes, flags, 1 + vl, 1 + vl + rl, lim),
            },
        }
    }
}

impl<const MAX_TOPIC_NAME_LENGTH: usize, const MAX_PAYLOAD_SIZE: usize> PublishPacket<
    MAX_TOPIC_NAME_LENGTH,
    MAX_PAYLOAD_SIZE,
> {
    /// What decoding yields for this packet's capacities.
    pub open spec fn spec_decode(bytes: Seq<u8>) -> Option<Result<PublishView, ProtocolError>> {
        spec_decode_publish(bytes, Self::limits())
    }

    /// The capacities of this packet type.
    pub open spec fn limits() -> PublishLimits {
        PublishLimits {
            max_topic: MAX_TOPIC_NAME_LENGTH,
            topic_limit: HeaplessString::<MAX_TOPIC_NAME_LENGTH>::limit(),
            max_payload: MAX_PAYLOAD_SIZE,
            payload_limit: HeaplessVec::<u8, MAX_PAYLOAD_SIZE>::limit(),
        }
    }
}

impl<const MAX_TOPIC_NAME_LENGTH: usize, const MAX_PAYLOAD_SIZE: usize> PacketTypeConst for PublishPacket<
    MAX_TOPIC_NAME_LENGTH,
    MAX_PAYLOAD_SIZE,
> {
    const PACKET_TYPE: PacketType = PacketType::Publish;
}

impl<const MAX_TOPIC_NAME_LENGTH: usize, const MAX_PAYLOAD_SIZE: usize> PacketFlagsDynamic for PublishPacket<
    MAX_TOPIC_NAME_LENGTH,
    MAX_PAYLOAD_SIZE,
> {
    open spec fn flag_bits(&self) -> u8 {
        spec_nibble(self.dup, self.qos, self.retain)
    }

    fn flags(&self) -> (r: u8) {
        PublishFlags { dup: self.dup, qos: self.qos, retain: self.retain }.to_nibble()
    }
}

impl<const MAX_TOPIC_NAME_LENGTH: usize, const MAX_PAYLOAD_SIZE: usize> PacketEncoder for PublishPacket<
    MAX_TOPIC_NAME_LENGTH,
    MAX_PAYLOAD_SIZE,
> {
    open spec fn encode_accepts(&self, buffer_len: nat) -> bool {
        true
    }

    open spec fn decode_accepts(bytes: Seq<u8>) -> bool {
        Self::spec_decode(bytes) is Some
    }

    fn encode(&self, buffer: &mut [u8]) -> (r: Result<usize, ProtocolError>)
        ensures
            r == spec_publish_encode(self@, old(buffer)@.len()),
            r is Ok ==> final(buffer)@ == splice(old(buffer)@, 0, spec_publish_bytes(self@)),
    {
        let ghost m = self@;
        let blen = buffer.len();
        let topic = self.topic_name.as_bytes();
        let tl = self.topic_name.as_heapless().len();
        assert(tl == topic@.len());
        let pl = self.payload.len();
        let has_pid = self.qos != QoS::AtMostOnce;
        let mut remaining_length = 2 + tl;
        if has_pid {
            remaining_length = remaining_length + 2;
        }
        remaining_length = remaining_length + pl;
        assert(remaining_length == publish_remaining_length(m));
        if blen == 0 {
            return Err(ProtocolError::BufferTooSmall { buffer_size: blen });
        }
        let first = PublishFlags { dup: self.dup, qos: self.qos, retain: self.retain }.publish_header_byte();
        buffer[0] = first;
        let ghost b1 = buffer@;
        assert(b1 =~= splice(old(buffer)@, 0, seq![first]));
        let vl = write_variable_length_at(remaining_length, buffer, 1)?;
        proof {
            lemma_varint_len(remaining_length as nat);
        }
        let ghost enc = spec_encode_varint(remaining_length as nat);
        let mut offset: usize = 1 + vl;
        let ghost b2 = buffer@;
        proof {
            crate::protocol::utils::lemma_splice_concat(old(buffer)@, 0, seq![first], enc);
        }
        write_binary(topic, buffer, &mut offset)?;
        let ghost b3 = buffer@;
        proof {
            crate::protocol::utils::lemma_splice_concat(old(buffer)@, 0, seq![first] + enc, length_prefixed(m.topic));
        }
        let ghost written = seq![first] + enc + length_prefixed(m.topic);
        assert(b3 == splice(old(buffer)@, 0, written));
        if has_pid {
            if blen < 2 || offset > blen - 2 {
                return Err(ProtocolError::BufferTooSmall { buffer_size: blen });
            }
            let pid = match self.packet_id {
                Some(p) => p,
                None => {
                    return Err(ProtocolError::MissingPacketId);
                },
            };
            write_u16_be(pid, buffer, offset);
            proof {
                crate::protocol::utils::lemma_splice_concat(old(buffer)@, 0, written, be_bytes(pid as int));
            }
            offset = offset + 2;
        }
        let ghost pid_bytes = if m.qos != QoS::AtMostOnce {
            be_bytes(m.packet_id.unwrap() as int)
        } else {
            Seq::<u8>::empty()
        };
        let ghost b4 = buffer@;
        assert(pid_bytes == Seq::<u8>::empty() ==> written + pid_bytes =~= written);
        assert(b4 == splice(old(buffer)@, 0, written + pid_bytes));
        assert(offset == (written + pid_bytes).len());
        let payload = self.payload.as_slice();
        if pl > blen || offset > blen - pl {
            return Err(ProtocolError::BufferTooSmall { buffer_size: blen });
        }
        copy_bytes(payload, buffer, offset);
        proof {
            crate::protocol::utils::lemma_splice_concat(old(buffer)@, 0, written + pid_bytes, m.payload);
            assert(written + pid_bytes + m.payload =~= spec_publish_bytes(m));
        }
        offset = offset + pl;
        Ok(offset)
    }

    fn decode(bytes: &[u8]) -> (r: Result<Self, ProtocolError>)
        ensures
            match (r, Self::spec_decode(bytes@)) {
                (Ok(p), Some(Ok(v))) => p@ == v,
                (Err(a), Some(Err(b))) => a == b,
                _ => false,
            },
    {
        let n = bytes.len();
        if n == 0 {
            return Err(ProtocolError::IncompletePacket { available: 0 });
        }
        let header = bytes[0];
        let packet_type = header / 16;
        if packet_type != 3 {
            return Err(ProtocolError::InvalidPacketType { packet_type });
        }
        let flags = PublishFlags::from_nibble(header % 16)?;
        let (remaining_length, var_len_bytes) = read_variable_length_at(bytes, 1)?;
        proof {
            crate::protocol::packets::lemma_read_varint_bound(bytes@.skip(1));
        }
        let start = 1 + var_len_bytes;
        let mut offset = start;
        let topic_str = read_string(bytes, &mut offset)?;
        if topic_str.len() == 0 {
            return Err(ProtocolError::TopicEmpty);
        }
        let topic = match HeaplessString::<MAX_TOPIC_NAME_LENGTH>::from_str(topic_str) {
            Ok(s) => TopicName::new(s),
            Err(_) => {
                return Err(
                    ProtocolError::TopicNameLengthExceeded {
                        max_length: MAX_TOPIC_NAME_LENGTH,
                        actual_length: topic_str.len(),
                    },
                );
            },
        };
        let mut packet_id: Option<u16> = None;
        if flags.qos != QoS::AtMostOnce {
            if n < 2 || offset > n - 2 {
                return Err(ProtocolError::IncompletePacket { available: n });
            }
            let pid = read_u16_be(bytes, offset);
            if pid == 0 {
                return Err(ProtocolError::MissingPacketId);
            }
            offset = offset + 2;
            packet_id = Some(pid);
        }
        let end = start + remaining_length;
        if end > n {
            return Err(ProtocolError::IncompletePacket { available: n });
        }
        let payload_bytes = vstd::slice::slice_subrange(bytes, offset, end);
        let mut payload = HeaplessVec::<u8, MAX_PAYLOAD_SIZE>::const_new();
        if payload.extend_from_slice(payload_bytes).is_err() {
            return Err(
                ProtocolError::PayloadTooLarge {
                    max_size: MAX_PAYLOAD_SIZE,
                    actual_size: payload_bytes.len(),
                },
            );
        }
        assert(payload@ =~= payload_bytes@);
        Ok(
            PublishPacket {
                topic_name: topic,
                packet_id,
                payload,
                qos: flags.qos,
                dup: flags.dup,
                retain: flags.retain,
            },
        )
    }
}

/// The conditions under which a PUBLISH reads back as itself.
pub open spec fn publish_well_formed(m: PublishView, lim: PublishLimits) -> bool {
    &&& 0 < m.topic.len() <= lim.topic_limit
    &&& m.topic.len() < 65536
    &&& valid_utf8(m.topic)
    &&& m.payload.len() <= lim.payload_limit
    &&& publish_remaining_length(m) <= MAX_VARIABLE_LENGTH
    &&& m.qos != QoS::AtMostOnce ==> (m.packet_id matches Some(p) && p != 0)
    &&& m.qos == QoS::AtMostOnce ==> m.packet_id is None
}

proof fn lemma_publish_tail(m: PublishView, s: Seq<u8>, off: int, end: int, lim: PublishLimits)
    requires
        publish_well_formed(m, lim),
        0 <= off,
        end == off + (if m.qos != QoS::AtMostOnce { 2int } else { 0int }) + m.payload.len(),
        end <= s.len(),
        m.qos != QoS::AtMostOnce ==> s.subrange(off, off + 2) == be_bytes(m.packet_id.unwrap() as int),
        s.subrange(end - m.payload.len(), end) == m.payload,
    ensures
        publish_decode_tail(s, PublishFlags { dup: m.dup, qos: m.qos, retain: m.retain }, m.topic, off, end, lim)
            == Some(Ok::<PublishView, ProtocolError>(m)),
{
    if m.qos != QoS::AtMostOnce {
        let p = m.packet_id.unwrap();
        crate::protocol::utils::lemma_be_roundtrip(p as int);
        assert(s[off] == s.subrange(off, off + 2)[0]);
        assert(s[off + 1] == s.subrange(off, off + 2)[1]);
    }
}

proof fn lemma_publish_topic(m: PublishView, s: Seq<u8>, start: int, end: int, lim: PublishLimits)
    requires
        publish_well_formed(m, lim),
        0 <= start,
        end == start + publish_remaining_length(m),
        end <= s.len(),
        s.subrange(start, end) == publish_body(m),
    ensures
        publish_decode_topic(s, PublishFlags { dup: m.dup, qos: m.qos, retain: m.retain }, start, end, lim)
            == Some(Ok::<PublishView, ProtocolError>(m)),
{
    let pid_bytes = if m.qos != QoS::AtMostOnce {
        be_bytes(m.packet_id.unwrap() as int)
    } else {
        Seq::empty()
    };
    let off = start + 2 + m.topic.len();
    let body = publish_body(m);
    assert(s =~= s.take(start) + length_prefixed(m.topic) + (pid_bytes + m.payload + s.skip(end))) by {
        assert(body =~= length_prefixed(m.topic) + pid_bytes + m.payload);
        assert(s.take(start) + s.subrange(start, end) + s.skip(end) =~= s);
    }
    lemma_read_prefixed(s.take(start), m.topic, pid_bytes + m.payload + s.skip(end));
    assert(spec_read_string(s, start) == (Ok::<Seq<u8>, ProtocolError>(m.topic), off));
    assert(s.subrange(off, off + pid_bytes.len()) =~= pid_bytes) by {
        assert(s.subrange(off, off + pid_bytes.len()) =~= body.subrange((2 + m.topic.len()) as int, (2 + m.topic.len() + pid_bytes.len()) as int));
    }
    assert(s.subrange(end - m.payload.len(), end) =~= m.payload) by {
        assert(s.subrange(end - m.payload.len(), end) =~= body.subrange(body.len() - m.payload.len(), body.len() as int));
    }
    lemma_publish_tail(m, s, off, end, lim);
}

proof fn lemma_publish_frame(m: PublishView, rest: Seq<u8>)
    requires
        publish_remaining_length(m) <= MAX_VARIABLE_LENGTH,
    ensures
        ({
            let rl = publish_remaining_length(m);
            let s = spec_publish_bytes(m) + rest;
            let vl = spec_varint_len(rl);
            &&& spec_read_varint(s.skip(1)) == Ok::<(usize, usize), ProtocolError>((rl as usize, vl as usize))
            &&& 1 + vl + rl <= s.len()
            &&& s.subrange(1 + vl, 1 + vl + rl) == publish_body(m)
            &&& s[0] == (48 + spec_nibble(m.dup, m.qos, m.retain)) as u8
        }),
{
    let rl = publish_remaining_length(m);
    let s = spec_publish_bytes(m) + rest;
    let first = (48 + spec_nibble(m.dup, m.qos, m.retain)) as u8;
    let enc = spec_encode_varint(rl as nat);
    let body = publish_body(m);
    lemma_varint_len(rl as nat);
    let vl = enc.len() as int;
    assert(s =~= seq![first] + enc + body + rest);
    assert(s.skip(1) =~= enc + (body + rest));
    lemma_varint_roundtrip(rl as nat, body + rest);
    assert(body.len() == rl) by {
        assert(body =~= length_prefixed(m.topic) + (if m.qos != QoS::AtMostOnce {
            be_bytes(m.packet_id.unwrap() as int)
        } else {
            Seq::empty()
        }) + m.payload);
    }
    assert(s.subrange(1 + vl, 1 + vl + rl) =~= body);
}

proof fn lemma_publish_first_byte(m: PublishView)
    ensures
        ({
            let first = (48 + spec_nibble(m.dup, m.qos, m.retain)) as u8;
            &&& first / 16 == 3
            &&& spec_flags_from(first % 16) == Ok::<PublishFlags, ProtocolError>(
                PublishFlags { dup: m.dup, qos: m.qos, retain: m.retain },
            )
        }),
{
}

/// A well-formed PUBLISH reads back as itself, whatever follows it.
#[verifier::spinoff_prover]
pub proof fn lemma_publish_roundtrip(m: PublishView, rest: Seq<u8>, lim: PublishLimits)
    requires
        publish_well_formed(m, lim),
    ensures
        spec_decode_publish(spec_publish_bytes(m) + rest, lim) == Some(Ok::<PublishView, ProtocolError>(m)),
{
    let rl = publish_remaining_length(m);
    let s = spec_publish_bytes(m) + rest;
    let vl = spec_varint_len(rl);
    lemma_publish_frame(m, rest);
    lemma_publish_first_byte(m);
    lemma_publish_topic(m, s, 1 + vl, 1 + vl + rl, lim);
}

} // verus!
