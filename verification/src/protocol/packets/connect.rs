//! CONNECT: the first packet a client sends, naming itself and its session options.
use vstd::prelude::*;
use vstd::string::*;
use vstd::utf8::*;
use crate::client::{ClientId, MAX_CLIENT_ID_LENGTH};
use crate::protocol::error::ProtocolError;
use crate::protocol::heapless::{HeaplessString, HeaplessVec};
use crate::protocol::packet_type::PacketType;
use crate::protocol::packets::{PacketEncoder, PacketFlagsConst, PacketTypeConst};
use crate::protocol::utils::{
    be_bytes, be_value, length_prefixed, lemma_be_back, lemma_be_roundtrip, lemma_read_binary_back,
    lemma_read_prefixed, lemma_varint_canonical,
    lemma_splice_concat, lemma_varint_len, lemma_varint_roundtrip, read_binary, read_string,
    read_u16_be, read_variable_length_at, spec_encode_varint, spec_read_binary, spec_read_string,
    spec_read_varint, spec_varint_len, splice, write_binary, write_u16_be,
    write_variable_length_at, MAX_VARIABLE_LENGTH,
};
use crate::topics::TopicName;

verus! {

/// The protocol level of MQTT 3.1.1.
pub const MQTT_3_1_1_PROTOCOL_LEVEL: u8 = 4;

/// The bytes of the protocol name "MQTT".
pub open spec fn mqtt_name() -> Seq<u8> {
    seq![0x4Du8, 0x51u8, 0x54u8, 0x54u8]
}

/// The connect flags byte of a CONNECT.
#[derive(Clone, Copy, PartialEq, Eq, Debug, Structural)]
pub struct ConnectFlags(u8);

impl View for ConnectFlags {
    type V = u8;

    closed spec fn view(&self) -> u8 {
        self.0
    }
}

/// True when every bit of `mask` is set in `bits`.
pub open spec fn has_bits(bits: u8, mask: u8) -> bool {
    bits & mask == mask
}

impl ConnectFlags {
    pub const RESERVED: u8 = 0b_0000_0001;
    pub const CLEAN_SESSION: u8 = 0b_0000_0010;
    pub const WILL_FLAG: u8 = 0b_0000_0100;
    pub const WILL_QOS_1: u8 = 0b_0000_1000;
    pub const WILL_QOS_2: u8 = 0b_0001_0000;
    pub const WILL_RETAIN: u8 = 0b_0010_0000;
    pub const PASSWORD: u8 = 0b_0100_0000;
    pub const USERNAME: u8 = 0b_1000_0000;
    pub const ALL_FLAGS: u8 = 0b_1111_1110;

    /// Flags with no bit set.
    pub fn empty() -> (r: Self)
        ensures
            r@ == 0,
    {
        Self(0)
    }

    /// Flags holding exactly `bits`.
    pub fn from_bits(bits: u8) -> (r: Self)
        ensures
            r@ == bits,
    {
        Self(bits)
    }

    /// The flags byte.
    pub fn bits(self) -> (r: u8)
        ensures
            r == self@,
    {
        self.0
    }

    /// True when every bit of `other` is set here.
    pub fn contains(self, other: u8) -> (r: bool)
        ensures
            r == has_bits(self@, other),
    {
        (self.0 & other) == other
    }

    /// Sets the bits of `other`.
    pub fn insert(&mut self, other: u8)
        ensures
            final(self)@ == old(self)@ | other,
    {
        self.0 = self.0 | other;
    }

    /// Clears the bits of `other`.
    pub fn remove(&mut self, other: u8)
        ensures
            final(self)@ == old(self)@ & !other,
    {
        self.0 = self.0 & !other;
    }

    /// Flips the bits of `other`.
    pub fn toggle(&mut self, other: u8)
        ensures
            final(self)@ == old(self)@ ^ other,
    {
        self.0 = self.0 ^ other;
    }
}

impl Default for ConnectFlags {
    fn default() -> (r: Self)
        ensures
            r@ == 0,
    {
        Self(0)
    }
}

/// After `insert`, the inserted bits are all set.
pub proof fn lemma_insert_contains(bits: u8, other: u8)
    ensures
        has_bits(bits | other, other),
{
    assert((bits | other) & other == other) by (bit_vector);
}

/// After `remove`, no bit of the removed flags is set, and the other bits are as they were.
pub proof fn lemma_remove_clears(bits: u8, other: u8)
    ensures
        (bits & !other) & other == 0,
        (bits & !other) | (bits & other) == bits,
{
    assert((bits & !other) & other == 0) by (bit_vector);
    assert((bits & !other) | (bits & other) == bits) by (bit_vector);
}

/// Toggling the same flags twice restores the original flags.
pub proof fn lemma_toggle_twice(bits: u8, other: u8)
    ensures
        (bits ^ other) ^ other == bits,
{
    assert((bits ^ other) ^ other == bits) by (bit_vector);
}

/// The content of a CONNECT, as plain values.
pub ghost struct ConnectView {
    pub flags: u8,
    pub keep_alive: u16,
    pub client_id: Seq<u8>,
    pub will_topic: Option<Seq<u8>>,
    pub will_payload: Option<Seq<u8>>,
    pub username: Option<Seq<u8>>,
    pub password: Option<Seq<u8>>,
}

/// The capacities a CONNECT decoder checks against: the lengths it can hold, and the
/// maxima it reports in errors.
pub ghost struct ConnectLimits {
    pub max_topic: usize,
    pub topic_limit: nat,
    pub max_payload: usize,
    pub payload_limit: nat,
    pub client_limit: nat,
    pub password_limit: nat,
}

/// CONNECT packet.
#[derive(Debug, Clone, Copy, PartialEq, Eq)]
pub struct ConnectPacket<const MAX_TOPIC_NAME_LENGTH: usize, const MAX_PAYLOAD_SIZE: usize> {
    pub connect_flags: ConnectFlags,
    pub keep_alive: u16,
    pub client_id: ClientId,
    pub will_topic: Option<TopicName<MAX_TOPIC_NAME_LENGTH>>,
    pub will_payload: Option<HeaplessVec<u8, MAX_PAYLOAD_SIZE>>,
    pub username: Option<HeaplessString<MAX_TOPIC_NAME_LENGTH>>,
    pub password: Option<HeaplessVec<u8, MAX_TOPIC_NAME_LENGTH>>,
}

impl<const MAX_TOPIC_NAME_LENGTH: usize, const MAX_PAYLOAD_SIZE: usize> View for ConnectPacket<
    MAX_TOPIC_NAME_LENGTH,
    MAX_PAYLOAD_SIZE,
> {
    type V = ConnectView;

    open spec fn view(&self) -> ConnectView {
        ConnectView {
            flags: self.connect_flags@,
            keep_alive: self.keep_alive,
            client_id: self.client_id@,
            will_topic: match self.will_topic {
                Some(t) => Some(t@),
                None => None,
            },
            will_payload: match self.will_payload {
                Some(p) => Some(p@),
                None => None,
            },
            username: match self.username {
                Some(u) => Some(u@),
                None => None,
            },
            password: match self.password {
                Some(p) => Some(p@),
                None => None,
            },
        }
    }
}

/// The length an optional length-prefixed field adds.
pub open spec fn opt_len(f: Option<Seq<u8>>) -> int {
    match f {
        Some(s) => 2 + s.len() as int,
        None => 0,
    }
}

/// The bytes an optional length-prefixed field adds.
pub open spec fn opt_bytes(f: Option<Seq<u8>>) -> Seq<u8> {
    match f {
        Some(s) => length_prefixed(s),
        None => Seq::empty(),
    }
}

/// The remaining length of a CONNECT.
pub open spec fn connect_remaining_length(m: ConnectView) -> int {
    10 + 2 + m.client_id.len() as int + opt_len(m.will_topic) + opt_len(m.will_payload) + opt_len(
        m.username,
    ) + opt_len(m.password)
}

/// The variable header of a CONNECT: protocol name and level, flags and keep-alive.
pub open spec fn connect_variable_header(flags: u8, keep_alive: u16) -> Seq<u8> {
    length_prefixed(mqtt_name()) + seq![MQTT_3_1_1_PROTOCOL_LEVEL, flags] + be_bytes(keep_alive as int)
}

/// The fixed header and variable header of a CONNECT with remaining length `rl`.
pub open spec fn connect_header_bytes(flags: u8, keep_alive: u16, rl: int) -> Seq<u8> {
    seq![0x10u8] + spec_encode_varint(rl as nat) + connect_variable_header(flags, keep_alive)
}

/// The bytes of a CONNECT.
pub open spec fn spec_connect_bytes(m: ConnectView) -> Seq<u8> {
    connect_header_bytes(m.flags, m.keep_alive, connect_remaining_length(m)) + fields_bytes(
        m.client_id,
        m.will_topic,
        m.will_payload,
        m.username,
        m.password,
    )
}

/// The buffer lengths on which encoding a CONNECT stops between the protocol name and the
/// keep-alive field, where a buffer too short for those four bytes cannot be written.
pub open spec fn connect_encode_stalls(m: ConnectView, buffer_len: nat) -> bool {
    let vl = spec_varint_len(connect_remaining_length(m));
    1 + vl + 6 <= buffer_len < 1 + vl + 10
}

/// What encoding a CONNECT into a buffer of `buffer_len` bytes returns.
pub open spec fn spec_connect_encode(m: ConnectView, buffer_len: nat) -> Result<usize, ProtocolError> {
    let rl = connect_remaining_length(m);
    let vl = spec_varint_len(rl);
    if 1 + vl > buffer_len {
        Err(ProtocolError::BufferTooSmall { buffer_size: (buffer_len - 1) as usize })
    } else if 1 + vl + rl > buffer_len {
        Err(ProtocolError::BufferTooSmall { buffer_size: buffer_len as usize })
    } else {
        Ok((1 + vl + rl) as usize)
    }
}

/// Reading the client identifier at `off`.
#[verifier::opaque]
pub open spec fn connect_read_client_id(bytes: Seq<u8>, flags: u8, off: int, lim: ConnectLimits) -> Result<
    (Seq<u8>, int),
    ProtocolError,
> {
    let (rs, next) = spec_read_string(bytes, off);
    match rs {
        Err(e) => Err(e),
        Ok(cid) => if cid.len() == 0 && !has_bits(flags, 2) {
            Err(ProtocolError::ClientIdEmpty)
        } else if cid.len() > lim.client_limit {
            Err(
                ProtocolError::ClientIdLengthExceeded {
                    max_length: lim.max_topic,
                    actual_length: cid.len() as usize,
                },
            )
        } else {
            Ok((cid, next))
        },
    }
}

/// Reading the will topic and will message at `off`, when the will flag is set.
#[verifier::opaque]
pub open spec fn connect_read_will(bytes: Seq<u8>, flags: u8, off: int, lim: ConnectLimits) -> Result<
    (Option<Seq<u8>>, Option<Seq<u8>>, int),
    ProtocolError,
> {
    if !has_bits(flags, 4) {
        Ok((None, None, off))
    } else {
        let (rs, o1) = spec_read_string(bytes, off);
        match rs {
            Err(e) => Err(e),
            Ok(topic) => if topic.len() == 0 {
                Err(ProtocolError::TopicEmpty)
            } else if topic.len() > lim.topic_limit {
                Err(
                    ProtocolError::TopicNameLengthExceeded {
                        max_length: lim.max_topic,
                        actual_length: topic.len() as usize,
                    },
                )
            } else {
                let (rb, o2) = spec_read_binary(bytes, o1);
                match rb {
                    Err(e) => Err(e),
                    Ok(payload) => if payload.len() > lim.payload_limit {
                        Err(
                            ProtocolError::PayloadTooLarge {
                                max_size: lim.max_payload,
                                actual_size: payload.len() as usize,
                            },
                        )
                    } else {
                        Ok((Some(topic), Some(payload), o2))
                    },
                }
            },
        }
    }
}

/// Reading the user name at `off`, when its flag is set.
#[verifier::opaque]
pub open spec fn connect_read_username(bytes: Seq<u8>, flags: u8, off: int, lim: ConnectLimits) -> Result<
    (Option<Seq<u8>>, int),
    ProtocolError,
> {
    if !has_bits(flags, 128) {
        Ok((None, off))
    } else {
        let (rs, next) = spec_read_string(bytes, off);
        match rs {
            Err(e) => Err(e),
            Ok(name) => if name.len() > lim.topic_limit {
                Err(
                    ProtocolError::UsernameLengthExceeded {
                        max_length: lim.max_topic,
                        actual_length: name.len() as usize,
                    },
                )
            } else {
                Ok((Some(name), next))
            },
        }
    }
}

/// Reading the password at `off`, when its flag is set.
#[verifier::opaque]
pub open spec fn connect_read_password(bytes: Seq<u8>, flags: u8, off: int, lim: ConnectLimits) -> Result<
    (Option<Seq<u8>>, int),
    ProtocolError,
> {
    if !has_bits(flags, 64) {
        Ok((None, off))
    } else {
        let (rb, next) = spec_read_binary(bytes, off);
        match rb {
            Err(e) => Err(e),
            Ok(pw) => if pw.len() > lim.password_limit {
                Err(
                    ProtocolError::PasswordLengthExceeded {
                        max_length: lim.max_topic,
                        actual_length: pw.len() as usize,
                    },
                )
            } else {
                Ok((Some(pw), next))
            },
        }
    }
}

/// Reading the payload of a CONNECT at `off`: the client identifier and the optional
/// fields its flags announce; the view is completed with `flags` and `keep_alive`, and
/// the offset after the last field comes with it.
pub open spec fn connect_read_payload(
    bytes: Seq<u8>,
    flags: u8,
    keep_alive: u16,
    off: int,
    lim: ConnectLimits,
) -> Result<(ConnectView, int), ProtocolError> {
    match connect_read_client_id(bytes, flags, off, lim) {
        Err(e) => Err(e),
        Ok((cid, o1)) => match connect_read_will(bytes, flags, o1, lim) {
            Err(e) => Err(e),
            Ok((wt, wp, o2)) => match connect_read_username(bytes, flags, o2, lim) {
                Err(e) => Err(e),
                Ok((un, o3)) => match connect_read_password(bytes, flags, o3, lim) {
                    Err(e) => Err(e),
                    Ok((pw, o4)) => Ok(
                        (
                            ConnectView {
                                flags,
                                keep_alive,
                                client_id: cid,
                                will_topic: wt,
                                will_payload: wp,
                                username: un,
                                password: pw,
                            },
                            o4,
                        ),
                    ),
                },
            },
        },
    }
}

/// Reading the variable header of a CONNECT after its remaining-length field, at `off`:
/// the protocol name and level, the flags and the keep-alive; then the payload.
pub open spec fn connect_read_variable_header(bytes: Seq<u8>, off: int, lim: ConnectLimits) -> Result<
    (ConnectView, int),
    ProtocolError,
> {
    let n = bytes.len() as int;
    if off >= n {
        Err(ProtocolError::IncompletePacket { available: n as usize })
    } else {
        let (rs, o1) = spec_read_string(bytes, off);
        match rs {
            Err(e) => Err(e),
            Ok(name) => if name != mqtt_name() {
                Err(ProtocolError::InvalidProtocolName)
            } else if o1 >= n {
                Err(ProtocolError::IncompletePacket { available: n as usize })
            } else if bytes[o1] != MQTT_3_1_1_PROTOCOL_LEVEL {
                Err(ProtocolError::UnsupportedProtocolLevel { level: bytes[o1] })
            } else if o1 + 1 >= n {
                Err(ProtocolError::IncompletePacket { available: n as usize })
            } else if has_bits(bytes[o1 + 1], 1) {
                Err(ProtocolError::InvalidConnectFlags { flags: bytes[o1 + 1] })
            } else if o1 + 4 > n {
                Err(ProtocolError::IncompletePacket { available: n as usize })
            } else {
                connect_read_payload(
                    bytes,
                    bytes[o1 + 1],
                    be_value(bytes[o1 + 2], bytes[o1 + 3]),
                    o1 + 4,
                    lim,
                )
            },
        }
    }
}

/// What decoding a CONNECT yields; the input holds at least one byte.
pub open spec fn spec_decode_connect(bytes: Seq<u8>, lim: ConnectLimits) -> Result<ConnectView, ProtocolError> {
    if bytes[0] / 16 != 1 {
        Err(ProtocolError::InvalidPacketType { packet_type: bytes[0] / 16 })
    } else {
        match spec_read_varint(bytes.skip(1)) {
            Err(e) => Err(e),
            Ok((rl, vl)) => match connect_read_variable_header(bytes, 1 + vl, lim) {
                Err(e) => Err(e),
                Ok((m, end)) => if end - 1 - vl != rl {
                    Err(
                        ProtocolError::InvalidPacketLength {
                            expected: rl,
                            actual: (end - 1 - vl) as usize,
                        },
                    )
                } else {
                    Ok(m)
                },
            },
        }
    }
}

impl<const MAX_TOPIC_NAME_LENGTH: usize, const MAX_PAYLOAD_SIZE: usize> ConnectPacket<
    MAX_TOPIC_NAME_LENGTH,
    MAX_PAYLOAD_SIZE,
> {
    /// The capacities of this packet type.
    pub open spec fn limits() -> ConnectLimits {
        ConnectLimits {
            max_topic: MAX_TOPIC_NAME_LENGTH,
            topic_limit: HeaplessString::<MAX_TOPIC_NAME_LENGTH>::limit(),
            max_payload: MAX_PAYLOAD_SIZE,
            payload_limit: HeaplessVec::<u8, MAX_PAYLOAD_SIZE>::limit(),
            client_limit: HeaplessString::<MAX_CLIENT_ID_LENGTH>::limit(),
            password_limit: HeaplessVec::<u8, MAX_TOPIC_NAME_LENGTH>::limit(),
        }
    }

    /// The client identifier and the optional fields, as byte slices.
    fn field_slices(&self) -> (r: (&[u8], Option<&[u8]>, Option<&[u8]>, Option<&[u8]>, Option<&[u8]>))
        ensures
            r.0@ == self@.client_id,
            opt_view(r.1) == self@.will_topic,
            opt_view(r.2) == self@.will_payload,
            opt_view(r.3) == self@.username,
            opt_view(r.4) == self@.password,
    {
        let cid = self.client_id.as_heapless().as_bytes();
        let topic: Option<&[u8]> = match &self.will_topic {
            Some(t) => Some(t.as_bytes()),
            None => None,
        };
        let payload: Option<&[u8]> = match &self.will_payload {
            Some(p) => Some(p.as_slice()),
            None => None,
        };
        let user: Option<&[u8]> = match &self.username {
            Some(u) => Some(u.as_bytes()),
            None => None,
        };
        let pass: Option<&[u8]> = match &self.password {
            Some(p) => Some(p.as_slice()),
            None => None,
        };
        (cid, topic, payload, user, pass)
    }

    /// The remaining length of this packet.
    /// Whether `encode` can take a buffer of `buffer_len` bytes.
    pub fn encode_accepted(&self, buffer_len: usize) -> (r: bool)
        ensures
            r == self.encode_accepts(buffer_len as nat),
    {
        if buffer_len == 0 {
            return false;
        }
        let vl = crate::protocol::utils::variable_length_length(self.remaining_length());
        !(1 + vl + 6 <= buffer_len && buffer_len < 1 + vl + 10)
    }

    fn remaining_length(&self) -> (r: usize)
        ensures
            r == connect_remaining_length(self@),
            r <= 200_000,
    {
        let mut rl: usize = 12 + self.client_id.as_heapless().len();
        if let Some(t) = &self.will_topic {
            rl = rl + 2 + t.as_heapless().len();
        }
        if let Some(p) = &self.will_payload {
            rl = rl + 2 + p.len();
        }
        if let Some(u) = &self.username {
            rl = rl + 2 + u.len();
        }
        if let Some(p) = &self.password {
            rl = rl + 2 + p.len();
        }
        rl
    }

    fn read_client_id(bytes: &[u8], flags: ConnectFlags, offset: &mut usize) -> (r: Result<
        ClientId,
        ProtocolError,
    >)
        ensures
            r is Ok ==> *final(offset) >= *old(offset),
            match (r, connect_read_client_id(bytes@, flags@, *old(offset) as int, Self::limits())) {
                (Ok(c), Ok((v, next))) => c@ == v && *final(offset) == next,
                (Err(a), Err(b)) => a == b,
                _ => false,
            },
    {
        proof {
            reveal(connect_read_client_id);
        }
        let s = read_string(bytes, offset)?;
        if s.len() == 0 && !flags.contains(ConnectFlags::CLEAN_SESSION) {
            return Err(ProtocolError::ClientIdEmpty);
        }
        match HeaplessString::<MAX_CLIENT_ID_LENGTH>::from_str(s) {
            Ok(h) => Ok(ClientId::new(h)),
            Err(_) => Err(
                ProtocolError::ClientIdLengthExceeded {
                    max_length: MAX_TOPIC_NAME_LENGTH,
                    actual_length: s.len(),
                },
            ),
        }
    }

    fn read_will(bytes: &[u8], flags: ConnectFlags, offset: &mut usize) -> (r: Result<
        (Option<TopicName<MAX_TOPIC_NAME_LENGTH>>, Option<HeaplessVec<u8, MAX_PAYLOAD_SIZE>>),
        ProtocolError,
    >)
        ensures
            r is Ok ==> *final(offset) >= *old(offset),
            match (r, connect_read_will(bytes@, flags@, *old(offset) as int, Self::limits())) {
                (Ok((t, p)), Ok((vt, vp, next))) => *final(offset) == next && match (t, vt) {
                    (Some(a), Some(b)) => a@ == b,
                    (None, None) => true,
                    _ => false,
                } && match (p, vp) {
                    (Some(a), Some(b)) => a@ == b,
                    (None, None) => true,
                    _ => false,
                },
                (Err(a), Err(b)) => a == b,
                _ => false,
            },
    {
        proof {
            reveal(connect_read_will);
        }
        if !flags.contains(ConnectFlags::WILL_FLAG) {
            return Ok((None, None));
        }
        let s = read_string(bytes, offset)?;
        if s.len() == 0 {
            return Err(ProtocolError::TopicEmpty);
        }
        let topic = match HeaplessString::<MAX_TOPIC_NAME_LENGTH>::from_str(s) {
            Ok(h) => TopicName::new(h),
            Err(_) => {
                return Err(
                    ProtocolError::TopicNameLengthExceeded {
                        max_length: MAX_TOPIC_NAME_LENGTH,
                        actual_length: s.len(),
                    },
                );
            },
        };
        let payload_bytes = read_binary(bytes, offset)?;
        let mut payload = HeaplessVec::<u8, MAX_PAYLOAD_SIZE>::const_new();
        if payload.extend_from_slice(payload_bytes).is_err() {
            return Err(
                ProtocolError::PayloadTooLarge {
                    max_size: MAX_PAYLOAD_SIZE,
                    actual_size: payload_bytes.len(),
                },
            );
        }
        assert(payload@ =~= payload_bytes@);
        Ok((Some(topic), Some(payload)))
    }

    fn read_username(bytes: &[u8], flags: ConnectFlags, offset: &mut usize) -> (r: Result<
        Option<HeaplessString<MAX_TOPIC_NAME_LENGTH>>,
        ProtocolError,
    >)
        ensures
            r is Ok ==> *final(offset) >= *old(offset),
            match (r, connect_read_username(bytes@, flags@, *old(offset) as int, Self::limits())) {
                (Ok(u), Ok((vu, next))) => *final(offset) == next && match (u, vu) {
                    (Some(a), Some(b)) => a@ == b,
                    (None, None) => true,
                    _ => false,
                },
                (Err(a), Err(b)) => a == b,
                _ => false,
            },
    {
        proof {
            reveal(connect_read_username);
        }
        if !flags.contains(ConnectFlags::USERNAME) {
            return Ok(None);
        }
        let s = read_string(bytes, offset)?;
        match HeaplessString::<MAX_TOPIC_NAME_LENGTH>::from_str(s) {
            Ok(h) => Ok(Some(h)),
            Err(_) => Err(
                ProtocolError::UsernameLengthExceeded {
                    max_length: MAX_TOPIC_NAME_LENGTH,
                    actual_length: s.len(),
                },
            ),
        }
    }

    fn read_password(bytes: &[u8], flags: ConnectFlags, offset: &mut usize) -> (r: Result<
        Option<HeaplessVec<u8, MAX_TOPIC_NAME_LENGTH>>,
        ProtocolError,
    >)
        ensures
            r is Ok ==> *final(offset) >= *old(offset),
            match (r, connect_read_password(bytes@, flags@, *old(offset) as int, Self::limits())) {
                (Ok(p), Ok((vp, next))) => *final(offset) == next && match (p, vp) {
                    (Some(a), Some(b)) => a@ == b,
                    (None, None) => true,
                    _ => false,
                },
                (Err(a), Err(b)) => a == b,
                _ => false,
            },
    {
        proof {
            reveal(connect_read_password);
        }
        if !flags.contains(ConnectFlags::PASSWORD) {
            return Ok(None);
        }
        let b = read_binary(bytes, offset)?;
        let mut pw = HeaplessVec::<u8, MAX_TOPIC_NAME_LENGTH>::const_new();
        if pw.extend_from_slice(b).is_err() {
            return Err(
                ProtocolError::PasswordLengthExceeded {
                    max_length: MAX_TOPIC_NAME_LENGTH,
                    actual_length: b.len(),
                },
            );
        }
        assert(pw@ =~= b@);
        Ok(Some(pw))
    }
}

/// True when `name` is the protocol name "MQTT".
fn is_mqtt_name(name: &[u8]) -> (r: bool)
    ensures
        r == (name@ == mqtt_name()),
{
    if name.len() != 4 {
        return false;
    }
    let r = name[0] == 0x4Du8 && name[1] == 0x51u8 && name[2] == 0x54u8 && name[3] == 0x54u8;
    assert(r ==> name@ =~= mqtt_name());
    r
}

/// Writes the fixed header and variable header of a CONNECT.
fn write_connect_header(flags: u8, keep_alive: u16, rl: usize, buffer: &mut [u8]) -> (r: Result<
    usize,
    ProtocolError,
>)
    requires
        rl <= 268_435_455,
        old(buffer)@.len() >= 1,
        !(1 + spec_varint_len(rl as int) + 6 <= old(buffer)@.len() < 1 + spec_varint_len(rl as int) + 10),
    ensures
        ({
            let vl = spec_varint_len(rl as int);
            let len = old(buffer)@.len();
            &&& final(buffer)@.len() == len
            &&& 1 + vl > len ==> r == Err::<usize, ProtocolError>(
                ProtocolError::BufferTooSmall { buffer_size: (len - 1) as usize },
            )
            &&& 1 + vl <= len && 1 + vl + 10 > len ==> r == Err::<usize, ProtocolError>(
                ProtocolError::BufferTooSmall { buffer_size: len as usize },
            )
            &&& 1 + vl + 10 <= len ==> r == Ok::<usize, ProtocolError>((1 + vl + 10) as usize)
                && final(buffer)@ == splice(old(buffer)@, 0, connect_header_bytes(flags, keep_alive, rl as int))
        }),
{
    buffer[0] = 0x10u8;
    assert(buffer@ =~= splice(old(buffer)@, 0, seq![0x10u8]));
    let vl = write_variable_length_at(rl, buffer, 1)?;
    let ghost enc = spec_encode_varint(rl as nat);
    proof {
        lemma_varint_len(rl as nat);
        lemma_splice_concat(old(buffer)@, 0, seq![0x10u8], enc);
    }
    let mut offset: usize = 1 + vl;
    let name: [u8; 4] = [0x4Du8, 0x51u8, 0x54u8, 0x54u8];
    assert(name@ =~= mqtt_name());
    write_binary(name.as_slice(), buffer, &mut offset)?;
    let ghost w1 = seq![0x10u8] + enc + length_prefixed(mqtt_name());
    proof {
        lemma_splice_concat(old(buffer)@, 0, seq![0x10u8] + enc, length_prefixed(mqtt_name()));
    }
    buffer[offset] = MQTT_3_1_1_PROTOCOL_LEVEL;
    buffer[offset + 1] = flags;
    let ghost w2 = w1 + seq![MQTT_3_1_1_PROTOCOL_LEVEL, flags];
    assert(buffer@ =~= splice(old(buffer)@, 0, w2));
    write_u16_be(keep_alive, buffer, offset + 2);
    proof {
        lemma_splice_concat(old(buffer)@, 0, w2, be_bytes(keep_alive as int));
        assert(w2 + be_bytes(keep_alive as int) =~= connect_header_bytes(flags, keep_alive, rl as int));
    }
    Ok(offset + 4)
}

/// The length-prefixed field an optional field adds, written at `*offset`.
fn write_optional(data: Option<&[u8]>, buffer: &mut [u8], offset: &mut usize) -> (r: Result<
    (),
    ProtocolError,
>)
    requires
        *old(offset) <= old(buffer)@.len(),
    ensures
        ({
            let f = match data {
                Some(d) => Some(d@),
                None => None,
            };
            &&& final(buffer)@.len() == old(buffer)@.len()
            &&& (r is Ok) <==> *old(offset) + opt_len(f) <= old(buffer)@.len()
            &&& r is Ok ==> final(buffer)@ == splice(old(buffer)@, *old(offset) as int, opt_bytes(f))
                && *final(offset) == *old(offset) + opt_len(f)
            &&& r matches Err(e) ==> e == ProtocolError::BufferTooSmall {
                buffer_size: old(buffer)@.len() as usize,
            }
        }),
{
    match data {
        Some(d) => {
            let r = write_binary(d, buffer, offset);
            assert(opt_len(Some(d@)) == 2 + d@.len());
            assert(opt_bytes(Some(d@)) == length_prefixed(d@));
            r
        },
        None => {
            assert(splice(buffer@, *offset as int, Seq::<u8>::empty()) =~= buffer@);
            Ok(())
        },
    }
}

/// The payload fields of a CONNECT, as written: the client identifier, then each optional
/// field that is present.
pub open spec fn fields_bytes(
    cid: Seq<u8>,
    t: Option<Seq<u8>>,
    p: Option<Seq<u8>>,
    u: Option<Seq<u8>>,
    w: Option<Seq<u8>>,
) -> Seq<u8> {
    length_prefixed(cid) + opt_bytes(t) + opt_bytes(p) + opt_bytes(u) + opt_bytes(w)
}

/// The length of the payload fields of a CONNECT.
pub open spec fn fields_len(
    cid: Seq<u8>,
    t: Option<Seq<u8>>,
    p: Option<Seq<u8>>,
    u: Option<Seq<u8>>,
    w: Option<Seq<u8>>,
) -> int {
    2 + cid.len() + opt_len(t) + opt_len(p) + opt_len(u) + opt_len(w)
}

/// The view of an optional byte slice.
pub open spec fn opt_view(d: Option<&[u8]>) -> Option<Seq<u8>> {
    match d {
        Some(s) => Some(s@),
        None => None,
    }
}

/// Writes the client identifier and the optional fields at `*offset`.
#[verifier::rlimit(40)]
fn write_connect_fields(
    cid: &[u8],
    topic: Option<&[u8]>,
    payload: Option<&[u8]>,
    user: Option<&[u8]>,
    pass: Option<&[u8]>,
    buffer: &mut [u8],
    offset: &mut usize,
) -> (r: Result<(), ProtocolError>)
    requires
        *old(offset) <= old(buffer)@.len(),
    ensures
        ({
            let total = fields_len(cid@, opt_view(topic), opt_view(payload), opt_view(user), opt_view(pass));
            &&& final(buffer)@.len() == old(buffer)@.len()
            &&& (r is Ok) <==> *old(offset) + total <= old(buffer)@.len()
            &&& r is Ok ==> final(buffer)@ == splice(
                old(buffer)@,
                *old(offset) as int,
                fields_bytes(cid@, opt_view(topic), opt_view(payload), opt_view(user), opt_view(pass)),
            ) && *final(offset) == *old(offset) + total
            &&& r matches Err(e) ==> e == ProtocolError::BufferTooSmall {
                buffer_size: old(buffer)@.len() as usize,
            }
        }),
{
    let ghost o = *offset as int;
    let ghost x = old(buffer)@;
    write_binary(cid, buffer, offset)?;
    let ghost w1 = length_prefixed(cid@);
    assert(buffer@ == splice(x, o, w1) && *offset == o + w1.len());
    write_optional(topic, buffer, offset)?;
    proof {
        lemma_splice_concat(x, o, w1, opt_bytes(opt_view(topic)));
    }
    let ghost w2 = w1 + opt_bytes(opt_view(topic));
    assert(buffer@ == splice(x, o, w2) && *offset == o + w2.len());
    write_optional(payload, buffer, offset)?;
    proof {
        lemma_splice_concat(x, o, w2, opt_bytes(opt_view(payload)));
    }
    let ghost w3 = w2 + opt_bytes(opt_view(payload));
    assert(buffer@ == splice(x, o, w3) && *offset == o + w3.len());
    write_optional(user, buffer, offset)?;
    proof {
        lemma_splice_concat(x, o, w3, opt_bytes(opt_view(user)));
    }
    let ghost w4 = w3 + opt_bytes(opt_view(user));
    assert(buffer@ == splice(x, o, w4) && *offset == o + w4.len());
    write_optional(pass, buffer, offset)?;
    proof {
        lemma_splice_concat(x, o, w4, opt_bytes(opt_view(pass)));
    }
    Ok(())
}

impl<const MAX_TOPIC_NAME_LENGTH: usize, const MAX_PAYLOAD_SIZE: usize> PacketEncoder for ConnectPacket<
    MAX_TOPIC_NAME_LENGTH,
    MAX_PAYLOAD_SIZE,
> {
    open spec fn encode_accepts(&self, buffer_len: nat) -> bool {
        buffer_len >= 1 && !connect_encode_stalls(self@, buffer_len)
    }

    open spec fn decode_accepts(bytes: Seq<u8>) -> bool {
        bytes.len() >= 1
    }

    #[verifier::rlimit(60)]
    #[verifier::spinoff_prover]
    fn encode(&self, buffer: &mut [u8]) -> (r: Result<usize, ProtocolError>)
        ensures
            r == spec_connect_encode(self@, old(buffer)@.len()),
            r is Ok ==> final(buffer)@ == splice(old(buffer)@, 0, spec_connect_bytes(self@)),
    {
        let ghost m = self@;
        let (cid, topic, payload, user, pass) = self.field_slices();
        let remaining_length = self.remaining_length();
        let mut offset = write_connect_header(
            self.connect_flags.bits(),
            self.keep_alive,
            remaining_length,
            buffer,
        )?;
        let ghost w3 = connect_header_bytes(m.flags, self.keep_alive, remaining_length as int);
        proof {
            lemma_varint_len(remaining_length as nat);
            assert(w3.len() == offset);
        }
        write_connect_fields(cid, topic, payload, user, pass, buffer, &mut offset)?;
        proof {
            let fb = fields_bytes(m.client_id, m.will_topic, m.will_payload, m.username, m.password);
            lemma_splice_concat(old(buffer)@, 0, w3, fb);
        }
        Ok(offset)
    }

    fn decode(bytes: &[u8]) -> (r: Result<Self, ProtocolError>)
        ensures
            match (r, spec_decode_connect(bytes@, Self::limits())) {
                (Ok(p), Ok(v)) => p@ == v,
                (Err(a), Err(b)) => a == b,
                _ => false,
            },
    {
        let n = bytes.len();
        let packet_type = bytes[0] / 16;
        if packet_type != 1 {
            return Err(ProtocolError::InvalidPacketType { packet_type });
        }
        let (remaining_length, var_len_bytes) = read_variable_length_at(bytes, 1)?;
        proof {
            crate::protocol::packets::lemma_read_varint_bound(bytes@.skip(1));
        }
        let mut offset: usize = 1 + var_len_bytes;
        if offset >= n {
            return Err(ProtocolError::IncompletePacket { available: n });
        }
        let name = read_string(bytes, &mut offset)?;
        if !is_mqtt_name(name.as_bytes()) {
            return Err(ProtocolError::InvalidProtocolName);
        }
        if offset >= n {
            return Err(ProtocolError::IncompletePacket { available: n });
        }
        let level = bytes[offset];
        if level != MQTT_3_1_1_PROTOCOL_LEVEL {
            return Err(ProtocolError::UnsupportedProtocolLevel { level });
        }
        if offset + 1 >= n {
            return Err(ProtocolError::IncompletePacket { available: n });
        }
        let flags_byte = bytes[offset + 1];
        let connect_flags = ConnectFlags(flags_byte);
        if connect_flags.contains(ConnectFlags::RESERVED) {
            return Err(ProtocolError::InvalidConnectFlags { flags: flags_byte });
        }
        if n - offset < 4 {
            return Err(ProtocolError::IncompletePacket { available: n });
        }
        let keep_alive = read_u16_be(bytes, offset + 2);
        offset = offset + 4;
        let client_id = Self::read_client_id(bytes, connect_flags, &mut offset)?;
        let (will_topic, will_payload) = Self::read_will(bytes, connect_flags, &mut offset)?;
        let username = Self::read_username(bytes, connect_flags, &mut offset)?;
        let password = Self::read_password(bytes, connect_flags, &mut offset)?;
        let actual = offset - 1 - var_len_bytes;
        if actual != remaining_length {
            return Err(ProtocolError::InvalidPacketLength { expected: remaining_length, actual });
        }
        Ok(
            ConnectPacket {
                connect_flags,
                keep_alive,
                client_id,
                will_topic,
                will_payload,
                username,
                password,
            },
        )
    }
}

impl<const MAX_TOPIC_NAME_LENGTH: usize, const MAX_PAYLOAD_SIZE: usize> PacketTypeConst for ConnectPacket<
    MAX_TOPIC_NAME_LENGTH,
    MAX_PAYLOAD_SIZE,
> {
    const PACKET_TYPE: PacketType = PacketType::Connect;
}

impl<const MAX_TOPIC_NAME_LENGTH: usize, const MAX_PAYLOAD_SIZE: usize> PacketFlagsConst for ConnectPacket<
    MAX_TOPIC_NAME_LENGTH,
    MAX_PAYLOAD_SIZE,
> {
    const PACKET_FLAGS: u8 = 0b0000;
}

/// The conditions under which a CONNECT reads back as itself: the reserved flag is clear,
/// each optional field is present exactly when its flag says so, every field fits the
/// capacities, strings are UTF-8, and an empty client identifier comes with a clean session.
#[verifier::opaque]
pub open spec fn connect_well_formed(m: ConnectView, lim: ConnectLimits) -> bool {
    &&& !has_bits(m.flags, 1)
    &&& has_bits(m.flags, 4) <==> m.will_topic is Some
    &&& has_bits(m.flags, 4) <==> m.will_payload is Some
    &&& has_bits(m.flags, 128) <==> m.username is Some
    &&& has_bits(m.flags, 64) <==> m.password is Some
    &&& m.client_id.len() <= lim.client_limit
    &&& m.client_id.len() < 65536
    &&& valid_utf8(m.client_id)
    &&& m.client_id.len() == 0 ==> has_bits(m.flags, 2)
    &&& m.will_topic matches Some(t) ==> 0 < t.len() <= lim.topic_limit && t.len() < 65536
        && valid_utf8(t)
    &&& m.will_payload matches Some(p) ==> p.len() <= lim.payload_limit && p.len() < 65536
    &&& m.username matches Some(u) ==> u.len() <= lim.topic_limit && u.len() < 65536 && valid_utf8(u)
    &&& m.password matches Some(p) ==> p.len() <= lim.password_limit && p.len() < 65536
}

proof fn lemma_mqtt_name_utf8()
    ensures
        valid_utf8(mqtt_name()),
{
    let b = mqtt_name();
    assert(pop_first_scalar(b) =~= b.subrange(1, 4));
    assert(pop_first_scalar(b.subrange(1, 4)) =~= b.subrange(2, 4));
    assert(pop_first_scalar(b.subrange(2, 4)) =~= b.subrange(3, 4));
    assert(pop_first_scalar(b.subrange(3, 4)) =~= Seq::<u8>::empty());
    reveal_with_fuel(valid_utf8, 5);
}

proof fn lemma_read_client_id_back(pre: Seq<u8>, m: ConnectView, post: Seq<u8>, lim: ConnectLimits)
    requires
        connect_well_formed(m, lim),
    ensures
        connect_read_client_id(pre + length_prefixed(m.client_id) + post, m.flags, pre.len() as int, lim)
            == Ok::<(Seq<u8>, int), ProtocolError>((m.client_id, pre.len() + 2 + m.client_id.len() as int)),
{
    reveal(connect_read_client_id);
    reveal(connect_well_formed);
    lemma_read_prefixed(pre, m.client_id, post);
}

proof fn lemma_will_parts(m: ConnectView, lim: ConnectLimits)
    requires
        connect_well_formed(m, lim),
    ensures
        has_bits(m.flags, 4) <==> m.will_topic is Some,
        has_bits(m.flags, 4) <==> m.will_payload is Some,
        m.will_topic matches Some(t) ==> 0 < t.len() <= lim.topic_limit && t.len() < 65536
            && valid_utf8(t),
        m.will_payload matches Some(p) ==> p.len() <= lim.payload_limit && p.len() < 65536,
{
    reveal(connect_well_formed);
}

proof fn lemma_read_will_fields(pre: Seq<u8>, t: Seq<u8>, p: Seq<u8>, post: Seq<u8>)
    requires
        t.len() < 65536,
        p.len() < 65536,
    ensures
        ({
            let s = pre + (length_prefixed(t) + length_prefixed(p)) + post;
            let o = pre.len() as int;
            &&& spec_read_binary(s, o) == (Ok::<Seq<u8>, ProtocolError>(t), o + 2 + t.len())
            &&& spec_read_binary(s, o + 2 + t.len()) == (
                Ok::<Seq<u8>, ProtocolError>(p),
                o + 2 + t.len() + 2 + p.len(),
            )
        }),
{
    let s = pre + (length_prefixed(t) + length_prefixed(p)) + post;
    assert(s =~= pre + length_prefixed(t) + (length_prefixed(p) + post));
    lemma_read_prefixed(pre, t, length_prefixed(p) + post);
    assert(s =~= (pre + length_prefixed(t)) + length_prefixed(p) + post);
    lemma_read_prefixed(pre + length_prefixed(t), p, post);
}

proof fn lemma_read_will_back(pre: Seq<u8>, m: ConnectView, post: Seq<u8>, lim: ConnectLimits)
    requires
        connect_well_formed(m, lim),
    ensures
        connect_read_will(
            pre + (opt_bytes(m.will_topic) + opt_bytes(m.will_payload)) + post,
            m.flags,
            pre.len() as int,
            lim,
        ) == Ok::<(Option<Seq<u8>>, Option<Seq<u8>>, int), ProtocolError>(
            (m.will_topic, m.will_payload, pre.len() + opt_len(m.will_topic) + opt_len(m.will_payload)),
        ),
{
    lemma_will_parts(m, lim);
    reveal(connect_read_will);
    if has_bits(m.flags, 4) {
        lemma_read_will_fields(pre, m.will_topic.unwrap(), m.will_payload.unwrap(), post);
    } else {
        assert(opt_bytes(m.will_topic) + opt_bytes(m.will_payload) =~= Seq::<u8>::empty());
    }
}

proof fn lemma_read_username_back(pre: Seq<u8>, m: ConnectView, post: Seq<u8>, lim: ConnectLimits)
    requires
        connect_well_formed(m, lim),
    ensures
        connect_read_username(pre + opt_bytes(m.username) + post, m.flags, pre.len() as int, lim)
            == Ok::<(Option<Seq<u8>>, int), ProtocolError>((m.username, pre.len() + opt_len(m.username))),
{
    reveal(connect_read_username);
    reveal(connect_well_formed);
    if has_bits(m.flags, 128) {
        lemma_read_prefixed(pre, m.username.unwrap(), post);
    }
}

proof fn lemma_read_password_back(pre: Seq<u8>, m: ConnectView, post: Seq<u8>, lim: ConnectLimits)
    requires
        connect_well_formed(m, lim),
    ensures
        connect_read_password(pre + opt_bytes(m.password) + post, m.flags, pre.len() as int, lim)
            == Ok::<(Option<Seq<u8>>, int), ProtocolError>((m.password, pre.len() + opt_len(m.password))),
{
    reveal(connect_read_password);
    reveal(connect_well_formed);
    if has_bits(m.flags, 64) {
        lemma_read_prefixed(pre, m.password.unwrap(), post);
    }
}

proof fn lemma_split_fields(
    pre: Seq<u8>,
    c: Seq<u8>,
    t: Seq<u8>,
    p: Seq<u8>,
    u: Seq<u8>,
    w: Seq<u8>,
    post: Seq<u8>,
)
    ensures
        pre + (c + t + p + u + w) + post == pre + c + ((t + p) + u + w + post),
        pre + (c + t + p + u + w) + post == (pre + c) + (t + p) + (u + w + post),
        pre + (c + t + p + u + w) + post == (pre + c + (t + p)) + u + (w + post),
        pre + (c + t + p + u + w) + post == (pre + c + (t + p) + u) + w + post,
{
    assert(pre + (c + t + p + u + w) + post =~= pre + c + ((t + p) + u + w + post));
    assert(pre + (c + t + p + u + w) + post =~= (pre + c) + (t + p) + (u + w + post));
    assert(pre + (c + t + p + u + w) + post =~= (pre + c + (t + p)) + u + (w + post));
    assert(pre + (c + t + p + u + w) + post =~= (pre + c + (t + p) + u) + w + post);
}

#[verifier::rlimit(50)]
proof fn lemma_read_payload_back(pre: Seq<u8>, m: ConnectView, post: Seq<u8>, lim: ConnectLimits)
    requires
        connect_well_formed(m, lim),
    ensures
        connect_read_payload(
            pre + fields_bytes(m.client_id, m.will_topic, m.will_payload, m.username, m.password) + post,
            m.flags,
            m.keep_alive,
            pre.len() as int,
            lim,
        ) == Ok::<(ConnectView, int), ProtocolError>(
            (m, pre.len() + fields_len(m.client_id, m.will_topic, m.will_payload, m.username, m.password)),
        ),
{
    let c = length_prefixed(m.client_id);
    let t = opt_bytes(m.will_topic);
    let pl = opt_bytes(m.will_payload);
    let u = opt_bytes(m.username);
    let w = opt_bytes(m.password);
    lemma_split_fields(pre, c, t, pl, u, w, post);
    let s = pre + fields_bytes(m.client_id, m.will_topic, m.will_payload, m.username, m.password) + post;
    lemma_read_client_id_back(pre, m, (t + pl) + u + w + post, lim);
    let o1: int = pre.len() + 2 + m.client_id.len() as int;
    assert(connect_read_client_id(s, m.flags, pre.len() as int, lim) == Ok::<(Seq<u8>, int), ProtocolError>((m.client_id, o1)));
    lemma_read_will_back(pre + c, m, u + w + post, lim);
    let o2 = o1 + opt_len(m.will_topic) + opt_len(m.will_payload);
    assert(connect_read_will(s, m.flags, o1, lim) == Ok::<(Option<Seq<u8>>, Option<Seq<u8>>, int), ProtocolError>((m.will_topic, m.will_payload, o2)));
    lemma_read_username_back(pre + c + (t + pl), m, w + post, lim);
    let o3 = o2 + opt_len(m.username);
    assert(connect_read_username(s, m.flags, o2, lim) == Ok::<(Option<Seq<u8>>, int), ProtocolError>((m.username, o3)));
    lemma_read_password_back(pre + c + (t + pl) + u, m, post, lim);
    let o4 = o3 + opt_len(m.password);
    assert(connect_read_password(s, m.flags, o3, lim) == Ok::<(Option<Seq<u8>>, int), ProtocolError>((m.password, o4)));
}

#[verifier::rlimit(50)]
proof fn lemma_read_variable_header_back(pre: Seq<u8>, m: ConnectView, post: Seq<u8>, lim: ConnectLimits)
    requires
        connect_well_formed(m, lim),
    ensures
        connect_read_variable_header(
            pre + connect_variable_header(m.flags, m.keep_alive) + fields_bytes(
                m.client_id,
                m.will_topic,
                m.will_payload,
                m.username,
                m.password,
            ) + post,
            pre.len() as int,
            lim,
        ) == Ok::<(ConnectView, int), ProtocolError>(
            (m, pre.len() + 10 + fields_len(m.client_id, m.will_topic, m.will_payload, m.username, m.password)),
        ),
{
    reveal(connect_well_formed);
    let f = fields_bytes(m.client_id, m.will_topic, m.will_payload, m.username, m.password);
    let vh = connect_variable_header(m.flags, m.keep_alive);
    let tail = seq![MQTT_3_1_1_PROTOCOL_LEVEL, m.flags] + be_bytes(m.keep_alive as int) + f + post;
    let s = pre + vh + f + post;
    let o = pre.len() as int;
    assert(s =~= pre + length_prefixed(mqtt_name()) + tail);
    lemma_read_prefixed(pre, mqtt_name(), tail);
    lemma_mqtt_name_utf8();
    assert(s[o + 6] == MQTT_3_1_1_PROTOCOL_LEVEL);
    assert(s[o + 7] == m.flags);
    lemma_be_roundtrip(m.keep_alive as int);
    assert(s[o + 8] == be_bytes(m.keep_alive as int)[0]);
    assert(s[o + 9] == be_bytes(m.keep_alive as int)[1]);
    lemma_read_payload_back(pre + vh, m, post, lim);
}

/// A well-formed CONNECT reads back as itself, whatever follows it.
#[verifier::spinoff_prover]
#[verifier::rlimit(100)]
pub proof fn lemma_connect_roundtrip(m: ConnectView, rest: Seq<u8>, lim: ConnectLimits)
    requires
        connect_well_formed(m, lim),
    ensures
        spec_decode_connect(spec_connect_bytes(m) + rest, lim) == Ok::<ConnectView, ProtocolError>(m),
{
    let rl = connect_remaining_length(m);
    let enc = spec_encode_varint(rl as nat);
    let f = fields_bytes(m.client_id, m.will_topic, m.will_payload, m.username, m.password);
    let vh = connect_variable_header(m.flags, m.keep_alive);
    let s = spec_connect_bytes(m) + rest;
    reveal(connect_well_formed);
    assert(rl <= MAX_VARIABLE_LENGTH);
    lemma_varint_len(rl as nat);
    assert(s.skip(1) =~= enc + (vh + f + rest));
    lemma_varint_roundtrip(rl as nat, vh + f + rest);
    lemma_read_variable_header_back(seq![0x10u8] + enc, m, rest, lim);
}

proof fn lemma_read_client_id_fwd(bytes: Seq<u8>, flags: u8, off: int, lim: ConnectLimits)
    requires
        0 <= off,
        connect_read_client_id(bytes, flags, off, lim) is Ok,
    ensures
        ({
            let (cid, o1) = connect_read_client_id(bytes, flags, off, lim)->Ok_0;
            &&& o1 == off + 2 + cid.len()
            &&& o1 <= bytes.len()
            &&& bytes.subrange(off, o1) == length_prefixed(cid)
        }),
{
    reveal(connect_read_client_id);
    lemma_read_binary_back(bytes, off);
}

proof fn lemma_read_will_fwd(bytes: Seq<u8>, flags: u8, off: int, lim: ConnectLimits)
    requires
        0 <= off <= bytes.len(),
        connect_read_will(bytes, flags, off, lim) is Ok,
    ensures
        ({
            let (wt, wp, o2) = connect_read_will(bytes, flags, off, lim)->Ok_0;
            &&& o2 == off + opt_len(wt) + opt_len(wp)
            &&& o2 <= bytes.len()
            &&& bytes.subrange(off, o2) == opt_bytes(wt) + opt_bytes(wp)
        }),
{
    reveal(connect_read_will);
    if has_bits(flags, 4) {
        lemma_read_binary_back(bytes, off);
        let o1 = spec_read_binary(bytes, off).1;
        lemma_read_binary_back(bytes, o1);
        let o2 = spec_read_binary(bytes, o1).1;
        assert(bytes.subrange(off, o2) =~= bytes.subrange(off, o1) + bytes.subrange(o1, o2));
    } else {
        assert(bytes.subrange(off, off) =~= Seq::<u8>::empty());
        assert(opt_bytes(None) + opt_bytes(None) =~= Seq::<u8>::empty());
    }
}

proof fn lemma_read_username_fwd(bytes: Seq<u8>, flags: u8, off: int, lim: ConnectLimits)
    requires
        0 <= off <= bytes.len(),
        connect_read_username(bytes, flags, off, lim) is Ok,
    ensures
        ({
            let (un, o3) = connect_read_username(bytes, flags, off, lim)->Ok_0;
            &&& o3 == off + opt_len(un)
            &&& o3 <= bytes.len()
            &&& bytes.subrange(off, o3) == opt_bytes(un)
        }),
{
    reveal(connect_read_username);
    if has_bits(flags, 128) {
        lemma_read_binary_back(bytes, off);
    } else {
        assert(bytes.subrange(off, off) =~= Seq::<u8>::empty());
    }
}

proof fn lemma_read_password_fwd(bytes: Seq<u8>, flags: u8, off: int, lim: ConnectLimits)
    requires
        0 <= off <= bytes.len(),
        connect_read_password(bytes, flags, off, lim) is Ok,
    ensures
        ({
            let (pw, o4) = connect_read_password(bytes, flags, off, lim)->Ok_0;
            &&& o4 == off + opt_len(pw)
            &&& o4 <= bytes.len()
            &&& bytes.subrange(off, o4) == opt_bytes(pw)
        }),
{
    reveal(connect_read_password);
    if has_bits(flags, 64) {
        lemma_read_binary_back(bytes, off);
    } else {
        assert(bytes.subrange(off, off) =~= Seq::<u8>::empty());
    }
}

#[verifier::rlimit(50)]
proof fn lemma_read_payload_fwd(bytes: Seq<u8>, flags: u8, keep_alive: u16, off: int, lim: ConnectLimits)
    requires
        0 <= off,
        connect_read_payload(bytes, flags, keep_alive, off, lim) is Ok,
    ensures
        ({
            let (m, end) = connect_read_payload(bytes, flags, keep_alive, off, lim)->Ok_0;
            &&& m.flags == flags
            &&& m.keep_alive == keep_alive
            &&& end == off + fields_len(m.client_id, m.will_topic, m.will_payload, m.username, m.password)
            &&& end <= bytes.len()
            &&& bytes.subrange(off, end) == fields_bytes(
                m.client_id,
                m.will_topic,
                m.will_payload,
                m.username,
                m.password,
            )
        }),
{
    lemma_read_client_id_fwd(bytes, flags, off, lim);
    let (cid, o1) = connect_read_client_id(bytes, flags, off, lim)->Ok_0;
    lemma_read_will_fwd(bytes, flags, o1, lim);
    let (wt, wp, o2) = connect_read_will(bytes, flags, o1, lim)->Ok_0;
    lemma_read_username_fwd(bytes, flags, o2, lim);
    let (un, o3) = connect_read_username(bytes, flags, o2, lim)->Ok_0;
    lemma_read_password_fwd(bytes, flags, o3, lim);
    let (pw, o4) = connect_read_password(bytes, flags, o3, lim)->Ok_0;
    assert(bytes.subrange(off, o4) =~= bytes.subrange(off, o1) + bytes.subrange(o1, o2) + bytes.subrange(o2, o3)
        + bytes.subrange(o3, o4));
    assert(fields_bytes(cid, wt, wp, un, pw) =~= length_prefixed(cid) + (opt_bytes(wt) + opt_bytes(wp))
        + opt_bytes(un) + opt_bytes(pw));
}

#[verifier::rlimit(50)]
proof fn lemma_read_variable_header_fwd(bytes: Seq<u8>, off: int, lim: ConnectLimits)
    requires
        0 <= off,
        connect_read_variable_header(bytes, off, lim) is Ok,
    ensures
        ({
            let (m, end) = connect_read_variable_header(bytes, off, lim)->Ok_0;
            &&& end == off + 10 + fields_len(m.client_id, m.will_topic, m.will_payload, m.username, m.password)
            &&& end <= bytes.len()
            &&& bytes.subrange(off, end) == connect_variable_header(m.flags, m.keep_alive) + fields_bytes(
                m.client_id,
                m.will_topic,
                m.will_payload,
                m.username,
                m.password,
            )
        }),
{
    lemma_read_binary_back(bytes, off);
    let o1 = off + 6;
    let flags = bytes[o1 + 1];
    let ka = be_value(bytes[o1 + 2], bytes[o1 + 3]);
    lemma_be_back(bytes[o1 + 2], bytes[o1 + 3]);
    lemma_read_payload_fwd(bytes, flags, ka, o1 + 4, lim);
    let (m, end) = connect_read_payload(bytes, flags, ka, o1 + 4, lim)->Ok_0;
    assert(bytes.subrange(o1, o1 + 4) =~= seq![MQTT_3_1_1_PROTOCOL_LEVEL, flags] + be_bytes(ka as int));
    assert(bytes.subrange(off, end) =~= bytes.subrange(off, o1) + bytes.subrange(o1, o1 + 4) + bytes.subrange(
        o1 + 4,
        end,
    ));
}

/// A CONNECT read from a frame that starts with the plain CONNECT header byte, whose
/// remaining-length field takes no more bytes than its value needs, and that ends where the
/// packet ends, is written back as exactly that frame, into any buffer large enough.
#[verifier::rlimit(50)]
pub proof fn lemma_connect_decode_encode(b: Seq<u8>, lim: ConnectLimits)
    requires
        b.len() >= 1,
        b[0] == 0x10u8,
        spec_decode_connect(b, lim) is Ok,
        spec_read_varint(b.skip(1)) is Ok,
        spec_read_varint(b.skip(1))->Ok_0.1 == spec_varint_len(spec_read_varint(b.skip(1))->Ok_0.0 as int),
        b.len() == 1 + spec_read_varint(b.skip(1))->Ok_0.1 + spec_read_varint(b.skip(1))->Ok_0.0,
    ensures
        spec_connect_bytes(spec_decode_connect(b, lim)->Ok_0) == b,
        forall|n: nat| n >= b.len() ==> spec_connect_encode(spec_decode_connect(b, lim)->Ok_0, n)
            == Ok::<usize, ProtocolError>(b.len() as usize),
{
    let (rl, vl) = spec_read_varint(b.skip(1))->Ok_0;
    let m = spec_decode_connect(b, lim)->Ok_0;
    lemma_varint_canonical(b.skip(1));
    lemma_read_variable_header_fwd(b, 1 + vl, lim);
    let end = connect_read_variable_header(b, 1 + vl as int, lim)->Ok_0.1;
    assert(connect_read_variable_header(b, 1 + vl as int, lim)->Ok_0.0 == m);
    assert(end == b.len());
    assert(connect_remaining_length(m) == rl);
    assert(b.subrange(1, 1 + vl as int) =~= b.skip(1).take(vl as int));
    assert(b =~= seq![b[0]] + b.subrange(1, 1 + vl as int) + b.subrange(1 + vl as int, end));
    assert(spec_connect_bytes(m) =~= seq![0x10u8] + spec_encode_varint(rl as nat) + (connect_variable_header(
        m.flags,
        m.keep_alive,
    ) + fields_bytes(m.client_id, m.will_topic, m.will_payload, m.username, m.password)));
}

} // verus!
