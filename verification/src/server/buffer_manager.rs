//! Per-session read buffers, and the framing of the bytes they hold into packets.
use vstd::prelude::*;
use crate::protocol::error::ProtocolError;
use crate::protocol::heapless::{without, HeaplessVec, PushError};
use crate::protocol::packets::{Packet, PacketEncoder};
use crate::protocol::packets::publish::{publish_decode_topic, spec_decode_publish, PublishPacket};
use crate::protocol::packets::publish::spec_flags_from;
use crate::protocol::packets::lemma_read_varint_bound;
use crate::protocol::utils::{read_variable_length_at, spec_read_string, spec_read_varint, spec_read_varint_from, MAX_VARIABLE_LENGTH};

verus! {

/// Where the first complete packet in `bytes` ends: `Ok(None)` while it is still incomplete,
/// and the error when its remaining-length field is malformed.
pub open spec fn frame_length(bytes: Seq<u8>) -> Result<Option<int>, ProtocolError> {
    if bytes.len() < 2 {
        Ok(None)
    } else {
        match spec_read_varint(bytes.skip(1)) {
            Ok((rl, vl)) => if 1 + vl + rl > bytes.len() {
                Ok(None)
            } else {
                Ok(Some(1 + vl + rl))
            },
            Err(ProtocolError::IncompletePacket { .. }) => Ok(None),
            Err(e) => Err(e),
        }
    }
}

/// Whether the packet decoder can take the first complete packet of `bytes`, if there is one.
pub open spec fn frame_accepted<const MAX_TOPIC_NAME_LENGTH: usize, const MAX_PAYLOAD_SIZE: usize>(
    bytes: Seq<u8>,
) -> bool {
    match frame_length(bytes) {
        Ok(Some(t)) => <Packet<MAX_TOPIC_NAME_LENGTH, MAX_PAYLOAD_SIZE> as PacketEncoder>::decode_accepts(
            bytes.take(t),
        ),
        _ => true,
    }
}

/// What taking the first packet out of `bytes` gives: the result `r`, and the bytes `rest`
/// left behind. An incomplete packet leaves everything in place; a complete one is decoded
/// and, when that succeeds, removed.
pub open spec fn decoded<const MAX_TOPIC_NAME_LENGTH: usize, const MAX_PAYLOAD_SIZE: usize>(
    bytes: Seq<u8>,
    r: Result<Option<Packet<MAX_TOPIC_NAME_LENGTH, MAX_PAYLOAD_SIZE>>, ProtocolError>,
    rest: Seq<u8>,
) -> bool {
    match frame_length(bytes) {
        Err(e) => r == Err::<Option<Packet<MAX_TOPIC_NAME_LENGTH, MAX_PAYLOAD_SIZE>>, ProtocolError>(e)
            && rest == bytes,
        Ok(None) => r == Ok::<Option<Packet<MAX_TOPIC_NAME_LENGTH, MAX_PAYLOAD_SIZE>>, ProtocolError>(None)
            && rest == bytes,
        Ok(Some(t)) => match r {
            Ok(Some(p)) => Packet::<MAX_TOPIC_NAME_LENGTH, MAX_PAYLOAD_SIZE>::decodes_as(Ok(p), bytes.take(t))
                && rest == bytes.skip(t),
            Err(e) => Packet::<MAX_TOPIC_NAME_LENGTH, MAX_PAYLOAD_SIZE>::decodes_as(Err(e), bytes.take(t))
                && rest == bytes,
            Ok(None) => false,
        },
    }
}

/// Reading the remaining-length field looks only at the bytes it consumes.
proof fn lemma_varint_prefix(s: Seq<u8>, s2: Seq<u8>, i: nat, value: int, mult: int)
    requires
        spec_read_varint_from(s, i, value, mult) is Ok,
        s2.len() >= spec_read_varint_from(s, i, value, mult)->Ok_0.1,
        forall|j: int| 0 <= j < spec_read_varint_from(s, i, value, mult)->Ok_0.1 ==> s2[j] == s[j],
    ensures
        spec_read_varint_from(s, i, value, mult)->Ok_0.1 > i,
        spec_read_varint_from(s2, i, value, mult) == spec_read_varint_from(s, i, value, mult),
    decreases 5 - i,
{
    assert(i < s.len() && i < 5);
    let b = s[i as int];
    let v = value + (b % 128) * mult;
    if v <= MAX_VARIABLE_LENGTH && mult * 128 <= 268435456 && b >= 128 {
        lemma_varint_prefix(s, s2, i + 1, v, mult * 128);
    }
    let n = spec_read_varint_from(s, i, value, mult)->Ok_0.1;
    assert(n > i);
    assert(i < s2.len());
    assert(s2[i as int] == s[i as int]);
}

/// The packet decoder takes every complete packet a buffer can hold: a packet cut at the
/// length its remaining-length field gives always holds its topic and packet identifier.
pub proof fn lemma_frame_accepted<const MAX_TOPIC_NAME_LENGTH: usize, const MAX_PAYLOAD_SIZE: usize>(bytes: Seq<u8>)
    ensures
        frame_accepted::<MAX_TOPIC_NAME_LENGTH, MAX_PAYLOAD_SIZE>(bytes),
{
    if let Ok(Some(t)) = frame_length(bytes) {
        let f = bytes.take(t);
        let (rl, vl) = spec_read_varint(bytes.skip(1))->Ok_0;
        lemma_read_varint_bound(bytes.skip(1));
        assert(t == 1 + vl + rl);
        if f[0] / 16 == 3 {
            let lim = PublishPacket::<MAX_TOPIC_NAME_LENGTH, MAX_PAYLOAD_SIZE>::limits();
            assert forall|j: int| 0 <= j < vl implies f.skip(1)[j] == bytes.skip(1)[j] by {
                assert(f.skip(1)[j] == f[j + 1]);
            }
            lemma_varint_prefix(bytes.skip(1), f.skip(1), 0, 0, 1);
            assert(spec_read_varint(f.skip(1)) == Ok::<(usize, usize), ProtocolError>((rl, vl)));
            if let Ok(flags) = spec_flags_from(f[0] % 16) {
                let (rs, off) = spec_read_string(f, 1 + vl);
                if rs is Ok {
                    assert(off <= f.len());
                }
                assert(publish_decode_topic(f, flags, 1 + vl, 1 + vl + rl, lim) is Some);
            }
            assert(spec_decode_publish(f, lim) is Some);
        }
    }
}

/// The bytes received from one session and not yet decoded.
#[derive(Debug, Clone, Copy)]
pub struct SessionReadBuffer<const MAX_PAYLOAD_SIZE: usize> {
    pub session_id: u128,
    buffer: HeaplessVec<u8, MAX_PAYLOAD_SIZE>,
}

impl<const MAX_PAYLOAD_SIZE: usize> View for SessionReadBuffer<MAX_PAYLOAD_SIZE> {
    type V = Seq<u8>;

    /// The bytes held, oldest first.
    closed spec fn view(&self) -> Seq<u8> {
        self.buffer@
    }
}

impl<const MAX_PAYLOAD_SIZE: usize> SessionReadBuffer<MAX_PAYLOAD_SIZE> {
    /// The session the buffer belongs to.
    pub closed spec fn owner(&self) -> u128 {
        self.session_id
    }

    /// The most bytes a buffer holds.
    pub open spec fn capacity() -> nat {
        HeaplessVec::<u8, MAX_PAYLOAD_SIZE>::limit()
    }

    /// An empty buffer for session `session_id`.
    pub fn new(session_id: u128) -> (r: Self)
        ensures
            r.owner() == session_id,
            r@ == Seq::<u8>::empty(),
    {
        SessionReadBuffer { session_id, buffer: HeaplessVec::const_new() }
    }

    /// Appends as many bytes of `data` as fit, in order.
    pub fn append(&mut self, data: &[u8])
        ensures
            final(self).owner() == old(self).owner(),
            final(self)@ == old(self)@ + data@.take(
                if data@.len() + old(self)@.len() <= Self::capacity() {
                    data@.len() as int
                } else {
                    Self::capacity() - old(self)@.len()
                },
            ),
    {
        let _ = self.buffer.len();
        let n = data.len();
        let mut i: usize = 0;
        while i < n
            invariant_except_break
                n == data@.len(),
                i <= n,
                self.session_id == old(self).session_id,
                self@ == old(self)@ + data@.take(i as int),
                old(self)@.len() + i <= Self::capacity(),
            ensures
                self.session_id == old(self).session_id,
                self@ == old(self)@ + data@.take(
                    if data@.len() + old(self)@.len() <= Self::capacity() {
                        data@.len() as int
                    } else {
                        Self::capacity() - old(self)@.len()
                    },
                ),
            decreases n - i,
        {
            let byte = data[i];
            if self.buffer.push(byte).is_ok() {
                assert(data@.take(i + 1) =~= data@.take(i as int).push(byte));
                i = i + 1;
            } else {
                break;
            }
        }
    }

    /// The bytes held.
    pub fn as_slice(&self) -> (r: &[u8])
        ensures
            r@ == self@,
    {
        self.buffer.as_slice()
    }

    /// The number of bytes held.
    pub fn len(&self) -> (r: usize)
        ensures
            r == self@.len(),
            r <= Self::capacity(),
    {
        self.buffer.len()
    }

    /// Whether no byte is held.
    pub fn is_empty(&self) -> (r: bool)
        ensures
            r == (self@.len() == 0),
    {
        self.buffer.is_empty()
    }

    /// Removes the byte at `index`, when there is one.
    pub fn remove(&mut self, index: usize)
        ensures
            final(self).owner() == old(self).owner(),
            index < old(self)@.len() ==> final(self)@ == without(old(self)@, index as int),
            index >= old(self)@.len() ==> final(self)@ == old(self)@,
    {
        if index < self.buffer.len() {
            self.buffer.remove(index);
        }
    }

    /// Appends one byte; fails, changing nothing, when the buffer is full.
    pub fn push(&mut self, byte: u8) -> (r: Result<(), PushError>)
        ensures
            final(self).owner() == old(self).owner(),
            r is Ok <==> old(self)@.len() < Self::capacity(),
            r is Ok ==> final(self)@ == old(self)@.push(byte),
            r is Err ==> final(self)@ == old(self)@,
    {
        self.buffer.push(byte)
    }

    /// Drops every byte held.
    pub fn clear(&mut self)
        ensures
            final(self).owner() == old(self).owner(),
            final(self)@ == Seq::<u8>::empty(),
    {
        self.buffer.clear();
    }
}

impl<const MAX_PAYLOAD_SIZE: usize> Default for SessionReadBuffer<MAX_PAYLOAD_SIZE> {
    fn default() -> (r: Self)
        ensures
            r.owner() == 0,
            r@ == Seq::<u8>::empty(),
    {
        Self::new(0)
    }
}

/// The identifiers of the buffers of `v`, in order.
pub open spec fn buffer_ids<const MAX_PAYLOAD_SIZE: usize>(v: Seq<SessionReadBuffer<MAX_PAYLOAD_SIZE>>) -> Seq<u128> {
    v.map_values(|b: SessionReadBuffer<MAX_PAYLOAD_SIZE>| b.owner())
}

/// The position of the first occurrence of `id` in `ids`.
pub open spec fn first_index_of(ids: Seq<u128>, id: u128) -> Option<int> {
    if exists|i: int| 0 <= i < ids.len() && ids[i] == id && (forall|j: int| 0 <= j < i ==> ids[j] != id) {
        Some(choose|i: int| 0 <= i < ids.len() && ids[i] == id && (forall|j: int| 0 <= j < i ==> ids[j] != id))
    } else {
        None
    }
}

/// The first occurrence is the one a left-to-right scan meets.
proof fn lemma_first_index_at(ids: Seq<u128>, id: u128, i: int)
    requires
        0 <= i < ids.len(),
        ids[i] == id,
        forall|j: int| 0 <= j < i ==> ids[j] != id,
    ensures
        first_index_of(ids, id) == Some(i),
{
    let k = choose|k: int| 0 <= k < ids.len() && ids[k] == id && (forall|j: int| 0 <= j < k ==> ids[j] != id);
    if k < i {
        assert(ids[k] != id);
    } else if k > i {
        assert(ids[i] != id);
    }
}

/// An identifier that occurs has a first occurrence.
pub proof fn lemma_first_index_exists(ids: Seq<u128>, id: u128, i: int)
    requires
        0 <= i < ids.len(),
        ids[i] == id,
    ensures
        first_index_of(ids, id) is Some,
    decreases i,
{
    if exists|j: int| 0 <= j < i && ids[j] == id {
        let j = choose|j: int| 0 <= j < i && ids[j] == id;
        lemma_first_index_exists(ids, id, j);
    } else {
        assert(ids[i] == id && forall|j: int| 0 <= j < i ==> ids[j] != id);
    }
}

/// What `first_index_of` gives is a first occurrence.
pub proof fn lemma_first_index_props(ids: Seq<u128>, id: u128)
    ensures
        first_index_of(ids, id) matches Some(i) ==> 0 <= i < ids.len() && ids[i] == id && (forall|j: int|
            0 <= j < i ==> ids[j] != id),
        first_index_of(ids, id) is None ==> forall|j: int| 0 <= j < ids.len() ==> ids[j] != id,
{
    if first_index_of(ids, id) is None {
        assert forall|j: int| 0 <= j < ids.len() implies ids[j] != id by {
            if ids[j] == id {
                lemma_first_index_exists(ids, id, j);
            }
        }
    }
}

/// The buffers of all sessions.
pub struct BufferManager<const MAX_PAYLOAD_SIZE: usize, const MAX_SESSIONS: usize> {
    buffers: HeaplessVec<SessionReadBuffer<MAX_PAYLOAD_SIZE>, MAX_SESSIONS>,
}

impl<const MAX_PAYLOAD_SIZE: usize, const MAX_SESSIONS: usize> View for BufferManager<
    MAX_PAYLOAD_SIZE,
    MAX_SESSIONS,
> {
    type V = Seq<SessionReadBuffer<MAX_PAYLOAD_SIZE>>;

    /// The buffers, in the order they were made.
    closed spec fn view(&self) -> Seq<SessionReadBuffer<MAX_PAYLOAD_SIZE>> {
        self.buffers@
    }
}

impl<const MAX_PAYLOAD_SIZE: usize, const MAX_SESSIONS: usize> BufferManager<MAX_PAYLOAD_SIZE, MAX_SESSIONS> {
    /// The most buffers the manager holds.
    pub open spec fn slots() -> nat {
        HeaplessVec::<SessionReadBuffer<MAX_PAYLOAD_SIZE>, MAX_SESSIONS>::limit()
    }

    /// Where the buffer for session `session_id` is found: its first buffer, or else a fresh
    /// one appended while there is room, or else the last buffer.
    pub open spec fn slot_for(v: Seq<SessionReadBuffer<MAX_PAYLOAD_SIZE>>, session_id: u128) -> int {
        match first_index_of(buffer_ids(v), session_id) {
            Some(i) => i,
            None => if v.len() < Self::slots() {
                v.len() as int
            } else {
                v.len() - 1
            },
        }
    }

    /// `w` is `v` once a lookup of session `session_id` has made its buffer, if it had to.
    pub open spec fn looked_up(
        v: Seq<SessionReadBuffer<MAX_PAYLOAD_SIZE>>,
        session_id: u128,
        w: Seq<SessionReadBuffer<MAX_PAYLOAD_SIZE>>,
    ) -> bool {
        if first_index_of(buffer_ids(v), session_id) is None && v.len() < Self::slots() {
            &&& w.len() == v.len() + 1
            &&& w.take(v.len() as int) == v
            &&& w.last().owner() == session_id
            &&& w.last()@.len() == 0
        } else {
            w == v
        }
    }

    /// The bytes held by the buffer a lookup of session `session_id` hands out.
    pub open spec fn pending(v: Seq<SessionReadBuffer<MAX_PAYLOAD_SIZE>>, session_id: u128) -> Seq<u8> {
        match first_index_of(buffer_ids(v), session_id) {
            Some(i) => v[i]@,
            None => if v.len() < Self::slots() {
                Seq::empty()
            } else {
                v.last()@
            },
        }
    }

    /// `w` is `v` once a lookup of session `session_id` has made its buffer, if it had to,
    /// and that buffer alone has had its bytes changed.
    pub open spec fn slot_changed(
        v: Seq<SessionReadBuffer<MAX_PAYLOAD_SIZE>>,
        session_id: u128,
        w: Seq<SessionReadBuffer<MAX_PAYLOAD_SIZE>>,
    ) -> bool {
        let k = Self::slot_for(v, session_id);
        &&& w.len() == (if k == v.len() { v.len() + 1 } else { v.len() })
        &&& forall|j: int| 0 <= j < v.len() && j != k ==> #[trigger] w[j] == v[j]
        &&& w[k].owner() == (if k == v.len() { session_id } else { v[k].owner() })
    }

    /// Looking a session up again after its buffer has been made finds the same buffer.
    pub proof fn lemma_lookup_stable(
        v: Seq<SessionReadBuffer<MAX_PAYLOAD_SIZE>>,
        session_id: u128,
        w: Seq<SessionReadBuffer<MAX_PAYLOAD_SIZE>>,
    )
        requires
            Self::looked_up(v, session_id, w),
            v.len() <= Self::slots(),
        ensures
            Self::slot_for(w, session_id) == Self::slot_for(v, session_id),
            first_index_of(buffer_ids(w), session_id) is Some || w.len() == Self::slots(),
    {
        lemma_first_index_props(buffer_ids(v), session_id);
        if first_index_of(buffer_ids(v), session_id) is None && v.len() < Self::slots() {
            let ids = buffer_ids(w);
            assert forall|j: int| 0 <= j < v.len() implies ids[j] != session_id by {
                assert(w[j] == v[j]) by {
                    assert(w.take(v.len() as int)[j] == v[j]);
                }
                assert(buffer_ids(v)[j] != session_id);
            }
            assert(ids[v.len() as int] == session_id);
            lemma_first_index_at(ids, session_id, v.len() as int);
        }
    }

    /// A lookup changes no buffer's bytes.
    pub proof fn lemma_looked_up_slot_changed(
        v: Seq<SessionReadBuffer<MAX_PAYLOAD_SIZE>>,
        session_id: u128,
        w: Seq<SessionReadBuffer<MAX_PAYLOAD_SIZE>>,
    )
        requires
            Self::looked_up(v, session_id, w),
            v.len() <= Self::slots(),
            Self::slots() > 0,
        ensures
            Self::slot_changed(v, session_id, w),
            0 <= Self::slot_for(v, session_id) < w.len(),
            w[Self::slot_for(v, session_id)]@ == Self::pending(v, session_id),
    {
        lemma_first_index_props(buffer_ids(v), session_id);
        if first_index_of(buffer_ids(v), session_id) is None && v.len() < Self::slots() {
            assert forall|j: int| 0 <= j < v.len() && j != Self::slot_for(v, session_id) implies #[trigger] w[j] == v[j] by {
                assert(w.take(v.len() as int)[j] == v[j]);
            }
            assert(w.last()@ =~= Seq::<u8>::empty());
        } else if let Some(i) = first_index_of(buffer_ids(v), session_id) {
            assert(buffer_ids(v)[i] == v[i].owner());
        }
    }

    /// Changing the bytes of the looked-up buffer keeps the other buffers as they were.
    pub proof fn lemma_slot_changed_update(
        v: Seq<SessionReadBuffer<MAX_PAYLOAD_SIZE>>,
        session_id: u128,
        w: Seq<SessionReadBuffer<MAX_PAYLOAD_SIZE>>,
        b: SessionReadBuffer<MAX_PAYLOAD_SIZE>,
    )
        requires
            Self::slot_changed(v, session_id, w),
            0 <= Self::slot_for(v, session_id) < w.len(),
            b.owner() == w[Self::slot_for(v, session_id)].owner(),
        ensures
            Self::slot_changed(v, session_id, w.update(Self::slot_for(v, session_id), b)),
    {
        let k = Self::slot_for(v, session_id);
        let u = w.update(k, b);
        assert forall|j: int| 0 <= j < v.len() && j != k implies #[trigger] u[j] == v[j] by {
            assert(w[j] == v[j]);
        }
    }

    /// No buffers.
    pub fn new() -> (r: Self)
        ensures
            r@ == Seq::<SessionReadBuffer<MAX_PAYLOAD_SIZE>>::empty(),
    {
        BufferManager { buffers: HeaplessVec::new() }
    }

    fn find(&self, session_id: u128) -> (r: Option<usize>)
        ensures
            r matches Some(i) ==> first_index_of(buffer_ids(self@), session_id) == Some(i as int),
            r is None ==> first_index_of(buffer_ids(self@), session_id) is None,
    {
        let n = self.buffers.len();
        let mut i: usize = 0;
        while i < n
            invariant
                n == self@.len(),
                i <= n,
                forall|j: int| 0 <= j < i ==> #[trigger] self@[j].owner() != session_id,
            decreases n - i,
        {
            let found = match self.buffers.get(i) {
                Some(b) => b.session_id == session_id,
                None => false,
            };
            if found {
                proof {
                    assert forall|j: int| 0 <= j < i implies #[trigger] buffer_ids(self@)[j] != session_id by {
                        assert(self@[j].owner() != session_id);
                    }
                    lemma_first_index_at(buffer_ids(self@), session_id, i as int);
                }
                return Some(i);
            }
            i = i + 1;
        }
        proof {
            let ids = buffer_ids(self@);
            if exists|k: int| 0 <= k < ids.len() && ids[k] == session_id && (forall|j: int| 0 <= j < k ==> ids[j] != session_id) {
                let k = choose|k: int| 0 <= k < ids.len() && ids[k] == session_id && (forall|j: int| 0 <= j < k ==> ids[j] != session_id);
                assert(self@[k].owner() != session_id);
            }
        }
        None
    }

    /// The buffer of session `session_id`, made if it has none; when every slot is taken by
    /// other sessions, the last buffer is handed out.
    pub fn get_buffer_mut(&mut self, session_id: u128) -> (r: &mut SessionReadBuffer<MAX_PAYLOAD_SIZE>)
        requires
            Self::slots() > 0,
        ensures
            match first_index_of(buffer_ids(old(self)@), session_id) {
                Some(i) => *r == old(self)@[i] && final(self)@ == old(self)@.update(i, *final(r)),
                None => if old(self)@.len() < Self::slots() {
                    &&& r.owner() == session_id
                    &&& r@.len() == 0
                    &&& final(self)@ == old(self)@.push(*final(r))
                } else {
                    &&& *r == old(self)@.last()
                    &&& final(self)@ == old(self)@.update(old(self)@.len() - 1, *final(r))
                },
            },
    {
        match self.find(session_id) {
            Some(i) => self.buffers.get_mut(i),
            None => {
                let buf = SessionReadBuffer::new(session_id);
                let _ = self.buffers.push(buf);
                let last = self.buffers.len() - 1;
                self.buffers.get_mut(last)
            },
        }
    }

    /// The room left in the buffer of session `session_id`, which is made if it has none.
    pub fn get_remaining_space(&mut self, session_id: u128) -> (r: usize)
        requires
            Self::slots() > 0,
        ensures
            old(self)@.len() <= Self::slots(),
            Self::looked_up(old(self)@, session_id, final(self)@),
            r == MAX_PAYLOAD_SIZE - final(self)@[Self::slot_for(old(self)@, session_id)]@.len(),
    {
        let _ = self.buffers.len();
        let buffer = self.get_buffer_mut(session_id);
        let used = buffer.len();
        proof {
            match first_index_of(buffer_ids(old(self)@), session_id) {
                Some(i) => {
                    assert(old(self)@.update(i, old(self)@[i]) =~= old(self)@);
                },
                None => if old(self)@.len() < Self::slots() {
                    assert(self@.take(old(self)@.len() as int) =~= old(self)@);
                } else {
                    let k = old(self)@.len() - 1;
                    assert(old(self)@.update(k, old(self)@[k]) =~= old(self)@);
                },
            }
        }
        MAX_PAYLOAD_SIZE - used
    }

    /// Takes the first complete packet out of the buffer of session `session_id`, which is
    /// made if it has none.
    pub fn try_decode_packet<const MAX_TOPIC_NAME_LENGTH: usize>(&mut self, session_id: u128) -> (r: Result<
        Option<Packet<MAX_TOPIC_NAME_LENGTH, MAX_PAYLOAD_SIZE>>,
        ProtocolError,
    >)
        requires
            Self::slots() > 0,
        ensures
            Self::slot_changed(old(self)@, session_id, final(self)@),
            decoded(
                Self::pending(old(self)@, session_id),
                r,
                final(self)@[Self::slot_for(old(self)@, session_id)]@,
            ),
    {
        let buffer = self.get_buffer_mut(session_id);
        proof {
            assert(buffer@ == Self::pending(old(self)@, session_id)) by {
                if first_index_of(buffer_ids(old(self)@), session_id) is None && old(self)@.len()
                    < Self::slots() {
                    assert(buffer@ =~= Seq::<u8>::empty());
                }
            }
        }
        Self::decode_from_buffer(buffer)
    }

    fn decode_from_buffer<const MAX_TOPIC_NAME_LENGTH: usize>(
        rx_buffer: &mut SessionReadBuffer<MAX_PAYLOAD_SIZE>,
    ) -> (r: Result<Option<Packet<MAX_TOPIC_NAME_LENGTH, MAX_PAYLOAD_SIZE>>, ProtocolError>)
        ensures
            final(rx_buffer).owner() == old(rx_buffer).owner(),
            decoded(old(rx_buffer)@, r, final(rx_buffer)@),
    {
        proof {
            lemma_frame_accepted::<MAX_TOPIC_NAME_LENGTH, MAX_PAYLOAD_SIZE>(rx_buffer@);
        }
        let n = rx_buffer.len();
        if n < 2 {
            return Ok(None);
        }
        let (remaining_length, var_int_len) = {
            let bytes = rx_buffer.as_slice();
            proof {
                crate::protocol::packets::lemma_read_varint_bound(bytes@.skip(1));
            }
            match read_variable_length_at(bytes, 1) {
                Ok(v) => v,
                Err(ProtocolError::IncompletePacket { available }) => {
                    return Ok(None);
                },
                Err(e) => {
                    return Err(e);
                },
            }
        };
        let total = 1 + var_int_len + remaining_length;
        if total > n {
            return Ok(None);
        }
        let packet = {
            let bytes = rx_buffer.as_slice();
            let frame = vstd::slice::slice_subrange(bytes, 0, total);
            assert(frame@ =~= bytes@.take(total as int));
            match Packet::<MAX_TOPIC_NAME_LENGTH, MAX_PAYLOAD_SIZE>::decode(frame) {
                Ok(p) => p,
                Err(e) => {
                    return Err(e);
                },
            }
        };
        let mut i: usize = 0;
        while i < total
            invariant
                i <= total,
                total <= old(rx_buffer)@.len(),
                rx_buffer.owner() == old(rx_buffer).owner(),
                rx_buffer@ == old(rx_buffer)@.skip(i as int),
            decreases total - i,
        {
            rx_buffer.remove(0);
            assert(without(old(rx_buffer)@.skip(i as int), 0) =~= old(rx_buffer)@.skip(i + 1));
            i = i + 1;
        }
        Ok(Some(packet))
    }

    /// Drops the first buffer of session `session_id`; false when it has none.
    pub fn remove_session(&mut self, session_id: u128) -> (r: bool)
        ensures
            match first_index_of(buffer_ids(old(self)@), session_id) {
                Some(i) => r && final(self)@ == without(old(self)@, i),
                None => !r && final(self)@ == old(self)@,
            },
    {
        match self.find(session_id) {
            Some(i) => {
                self.buffers.remove(i);
                true
            },
            None => false,
        }
    }
}

impl<const MAX_PAYLOAD_SIZE: usize, const MAX_SESSIONS: usize> Default for BufferManager<
    MAX_PAYLOAD_SIZE,
    MAX_SESSIONS,
> {
    fn default() -> (r: Self)
        ensures
            r@ == Seq::<SessionReadBuffer<MAX_PAYLOAD_SIZE>>::empty(),
    {
        Self::new()
    }
}

} // verus!
