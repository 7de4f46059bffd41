//! The server: the broker together with each session's stream and read buffer, and the
//! decisions its network loop takes between one read or write and the next.
pub mod buffer_manager;
pub mod connection_manager;
pub mod message;
pub mod session;
pub mod framing;

pub use buffer_manager::{BufferManager, SessionReadBuffer};
pub use connection_manager::ConnectionManager;

use vstd::prelude::*;
use crate::broker::{broker_disconnected, broker_received, BrokerView, PicoBroker};
use crate::error::BrokerError;
use crate::protocol::error::ProtocolError;
use crate::protocol::heapless::without;
use crate::protocol::packets::Packet;
use crate::session::{ids_unique, ids_where, padded, queue_packet, session_index, update_session, SessionState, SessionView};
use crate::server::buffer_manager::{buffer_ids, decoded, first_index_of, lemma_first_index_props};
use crate::server::connection_manager::slot_ids;
use crate::topics::{lemma_without_session_keeps_absent, lemma_without_session_wf, registry_wf, without_session};
use crate::traits::{NetworkError, TimeSource};

verus! {

/// The keep-alive, in seconds, given to a session when its connection is accepted.
pub const KEEP_ALIVE_SECS: u16 = 60;

/// The state of a server, as plain values.
pub ghost struct ServerView<S, const MAX_TOPIC_NAME_LENGTH: usize, const MAX_PAYLOAD_SIZE: usize> {
    pub broker: BrokerView<MAX_TOPIC_NAME_LENGTH, MAX_PAYLOAD_SIZE>,
    pub connections: Seq<(u128, Option<S>)>,
    pub buffers: Seq<SessionReadBuffer<MAX_PAYLOAD_SIZE>>,
}

/// The broker once session `session_id` is removed with its subscriptions.
pub open spec fn broker_without<const MAX_TOPIC_NAME_LENGTH: usize, const MAX_PAYLOAD_SIZE: usize>(
    b: BrokerView<MAX_TOPIC_NAME_LENGTH, MAX_PAYLOAD_SIZE>,
    session_id: u128,
) -> BrokerView<MAX_TOPIC_NAME_LENGTH, MAX_PAYLOAD_SIZE> {
    BrokerView {
        topics: without_session(b.topics, session_id),
        sessions: match session_index(b.sessions, session_id) {
            Some(i) => b.sessions.remove(i),
            None => b.sessions,
        },
    }
}

/// The server once session `session_id` is removed: from the broker, its stream released
/// and its read buffer dropped.
pub open spec fn server_without<S, const MAX_TOPIC_NAME_LENGTH: usize, const MAX_PAYLOAD_SIZE: usize>(
    v: ServerView<S, MAX_TOPIC_NAME_LENGTH, MAX_PAYLOAD_SIZE>,
    session_id: u128,
) -> ServerView<S, MAX_TOPIC_NAME_LENGTH, MAX_PAYLOAD_SIZE> {
    ServerView {
        broker: broker_without(v.broker, session_id),
        connections: match first_index_of(slot_ids(v.connections), session_id) {
            Some(i) => v.connections.update(i, (session_id, None)),
            None => v.connections,
        },
        buffers: match first_index_of(buffer_ids(v.buffers), session_id) {
            Some(i) => without(v.buffers, i),
            None => v.buffers,
        },
    }
}

/// The server once each of `ids` is removed in turn.
pub open spec fn server_without_all<S, const MAX_TOPIC_NAME_LENGTH: usize, const MAX_PAYLOAD_SIZE: usize>(
    v: ServerView<S, MAX_TOPIC_NAME_LENGTH, MAX_PAYLOAD_SIZE>,
    ids: Seq<u128>,
) -> ServerView<S, MAX_TOPIC_NAME_LENGTH, MAX_PAYLOAD_SIZE>
    decreases ids.len(),
{
    if ids.len() == 0 {
        v
    } else {
        server_without(server_without_all(v, ids.drop_last()), ids.last())
    }
}

/// The identifiers held in `slots`, in order.
pub open spec fn present(slots: Seq<Option<u128>>) -> Seq<u128>
    decreases slots.len(),
{
    if slots.len() == 0 {
        Seq::empty()
    } else {
        match slots.last() {
            Some(id) => present(slots.drop_last()).push(id),
            None => present(slots.drop_last()),
        }
    }
}

/// The identifiers of the disconnected sessions of `b`, as the broker reports them.
pub open spec fn disconnected_ids<const MAX_TOPIC_NAME_LENGTH: usize, const MAX_PAYLOAD_SIZE: usize>(
    b: BrokerView<MAX_TOPIC_NAME_LENGTH, MAX_PAYLOAD_SIZE>,
    slots: nat,
) -> Seq<u128> {
    present(
        padded(
            ids_where(
                b.sessions,
                |s: SessionView<MAX_TOPIC_NAME_LENGTH, MAX_PAYLOAD_SIZE>| s.state == SessionState::Disconnected,
            ),
            slots,
        ),
    )
}

/// The identifiers of the sessions of `b` expired at `now`, as the broker reports them.
pub open spec fn expired_ids<const MAX_TOPIC_NAME_LENGTH: usize, const MAX_PAYLOAD_SIZE: usize>(
    b: BrokerView<MAX_TOPIC_NAME_LENGTH, MAX_PAYLOAD_SIZE>,
    now: u128,
    slots: nat,
) -> Seq<u128> {
    present(
        padded(
            ids_where(
                b.sessions,
                |s: SessionView<MAX_TOPIC_NAME_LENGTH, MAX_PAYLOAD_SIZE>| crate::session::session_expired(s, now),
            ),
            slots,
        ),
    )
}

/// Removing a session leaves no trace of it: no session goes by its identifier, no
/// subscription holds it, and the first stream slot under its identifier, if any, holds no
/// stream.
pub proof fn lemma_removed_session_gone<S, const MAX_TOPIC_NAME_LENGTH: usize, const MAX_PAYLOAD_SIZE: usize>(
    v: ServerView<S, MAX_TOPIC_NAME_LENGTH, MAX_PAYLOAD_SIZE>,
    session_id: u128,
    sub_limit: nat,
)
    requires
        ids_unique(v.broker.sessions),
        registry_wf(v.broker.topics, sub_limit),
    ensures
        ({
            let w = server_without(v, session_id);
            &&& session_index(w.broker.sessions, session_id) is None
            &&& forall|i: int|
                0 <= i < w.broker.topics.len() ==> !(#[trigger] w.broker.topics[i]).subscribers.contains(session_id)
            &&& first_index_of(slot_ids(w.connections), session_id) matches Some(k) ==> w.connections[k].1 is None
        }),
{
    let w = server_without(v, session_id);
    lemma_without_session_wf(v.broker.topics, session_id, sub_limit);
    let old_sessions = v.broker.sessions;
    if let Some(i) = session_index(old_sessions, session_id) {
        let rest = old_sessions.remove(i);
        assert forall|k: int| 0 <= k < rest.len() implies #[trigger] rest[k].session_id != session_id by {
            if k < i {
                assert(rest[k] == old_sessions[k]);
            } else {
                assert(rest[k] == old_sessions[k + 1]);
            }
        }
    }
    if let Some(k) = first_index_of(slot_ids(v.connections), session_id) {
        let c2 = v.connections.update(k, (session_id, None));
        lemma_first_index_props(slot_ids(v.connections), session_id);
        assert(slot_ids(c2) =~= slot_ids(v.connections));
    }
}

/// Removing the sessions `ids` one after the other leaves none of them behind, in the
/// broker or in any subscription, and keeps the broker well formed. This is what cleaning up
/// does with the disconnected sessions and then with the expired ones.
pub proof fn lemma_removed_all_gone<S, const MAX_TOPIC_NAME_LENGTH: usize, const MAX_PAYLOAD_SIZE: usize>(
    v: ServerView<S, MAX_TOPIC_NAME_LENGTH, MAX_PAYLOAD_SIZE>,
    ids: Seq<u128>,
    sub_limit: nat,
)
    requires
        ids_unique(v.broker.sessions),
        registry_wf(v.broker.topics, sub_limit),
    ensures
        ({
            let w = server_without_all(v, ids);
            &&& ids_unique(w.broker.sessions)
            &&& registry_wf(w.broker.topics, sub_limit)
            &&& forall|k: int| 0 <= k < ids.len() ==> session_index(w.broker.sessions, #[trigger] ids[k]) is None
            &&& forall|k: int, i: int|
                0 <= k < ids.len() && 0 <= i < w.broker.topics.len() ==> !(#[trigger] w.broker.topics[i]).subscribers.contains(
                    #[trigger] ids[k],
                )
        }),
    decreases ids.len(),
{
    if ids.len() > 0 {
        let d = ids.drop_last();
        let x = ids.last();
        lemma_removed_all_gone(v, d, sub_limit);
        let u = server_without_all(v, d);
        let w = server_without(u, x);
        assert(server_without_all(v, ids) == w);
        lemma_removed_session_gone(u, x, sub_limit);
        lemma_without_session_wf(u.broker.topics, x, sub_limit);
        let us = u.broker.sessions;
        if let Some(i) = session_index(us, x) {
            let rest = us.remove(i);
            assert forall|a: int, b: int| 0 <= a < rest.len() && 0 <= b < rest.len() && a != b implies #[trigger] rest[a].session_id
                != #[trigger] rest[b].session_id by {
                let oa = if a < i { a } else { a + 1 };
                let ob = if b < i { b } else { b + 1 };
                assert(rest[a] == us[oa] && rest[b] == us[ob]);
            }
        }
        assert forall|k: int| 0 <= k < ids.len() implies session_index(w.broker.sessions, #[trigger] ids[k]) is None by {
            if k < d.len() {
                let y = d[k];
                assert(ids[k] == y);
                assert(session_index(us, y) is None);
                if let Some(i) = session_index(us, x) {
                    let rest = us.remove(i);
                    if exists|j: int| 0 <= j < rest.len() && rest[j].session_id == y {
                        let j = choose|j: int| 0 <= j < rest.len() && rest[j].session_id == y;
                        let oj = if j < i { j } else { j + 1 };
                        assert(rest[j] == us[oj]);
                    }
                }
            }
        }
        assert forall|k: int, i: int|
            0 <= k < ids.len() && 0 <= i < w.broker.topics.len() implies !(#[trigger] w.broker.topics[i]).subscribers.contains(
                #[trigger] ids[k],
            ) by {
            if k < d.len() {
                let y = d[k];
                assert(ids[k] == y);
                assert forall|j: int| 0 <= j < u.broker.topics.len() implies !(#[trigger] u.broker.topics[j]).subscribers.contains(y) by {
                    assert(d[k] == y);
                }
                lemma_without_session_keeps_absent(u.broker.topics, x, y);
            }
        }
    }
}

/// The broker server: the broker, the stream of each session and the bytes read from it.
/// The listener and the delay are held for the network loop that drives the server.
pub struct PicoBrokerServer<
    TS: TimeSource,
    TL,
    D,
    S,
    const MAX_TOPIC_NAME_LENGTH: usize,
    const MAX_PAYLOAD_SIZE: usize,
    const QUEUE_SIZE: usize,
    const MAX_SESSIONS: usize,
    const MAX_TOPICS: usize,
    const MAX_SUBSCRIBERS_PER_TOPIC: usize,
> {
    time_source: TS,
    listener: TL,
    delay: D,
    broker: PicoBroker<
        MAX_TOPIC_NAME_LENGTH,
        MAX_PAYLOAD_SIZE,
        QUEUE_SIZE,
        MAX_SESSIONS,
        MAX_TOPICS,
        MAX_SUBSCRIBERS_PER_TOPIC,
    >,
    connection_manager: ConnectionManager<S, MAX_SESSIONS>,
    buffer_manager: BufferManager<MAX_PAYLOAD_SIZE, MAX_SESSIONS>,
}

impl<
    TS: TimeSource,
    TL,
    D,
    S,
    const MAX_TOPIC_NAME_LENGTH: usize,
    const MAX_PAYLOAD_SIZE: usize,
    const QUEUE_SIZE: usize,
    const MAX_SESSIONS: usize,
    const MAX_TOPICS: usize,
    const MAX_SUBSCRIBERS_PER_TOPIC: usize,
> View for PicoBrokerServer<
    TS,
    TL,
    D,
    S,
    MAX_TOPIC_NAME_LENGTH,
    MAX_PAYLOAD_SIZE,
    QUEUE_SIZE,
    MAX_SESSIONS,
    MAX_TOPICS,
    MAX_SUBSCRIBERS_PER_TOPIC,
> {
    type V = ServerView<S, MAX_TOPIC_NAME_LENGTH, MAX_PAYLOAD_SIZE>;

    closed spec fn view(&self) -> ServerView<S, MAX_TOPIC_NAME_LENGTH, MAX_PAYLOAD_SIZE> {
        ServerView {
            broker: self.broker@,
            connections: self.connection_manager@,
            buffers: self.buffer_manager@,
        }
    }
}

impl<
    TS: TimeSource,
    TL,
    D,
    S,
    const MAX_TOPIC_NAME_LENGTH: usize,
    const MAX_PAYLOAD_SIZE: usize,
    const QUEUE_SIZE: usize,
    const MAX_SESSIONS: usize,
    const MAX_TOPICS: usize,
    const MAX_SUBSCRIBERS_PER_TOPIC: usize,
> PicoBrokerServer<
    TS,
    TL,
    D,
    S,
    MAX_TOPIC_NAME_LENGTH,
    MAX_PAYLOAD_SIZE,
    QUEUE_SIZE,
    MAX_SESSIONS,
    MAX_TOPICS,
    MAX_SUBSCRIBERS_PER_TOPIC,
> {
    /// The most read buffers the server keeps.
    pub open spec fn buffer_slots() -> nat {
        BufferManager::<MAX_PAYLOAD_SIZE, MAX_SESSIONS>::slots()
    }

    /// The listener the server holds.
    pub closed spec fn held_listener(&self) -> TL {
        self.listener
    }

    /// The delay the server holds.
    pub closed spec fn held_delay(&self) -> D {
        self.delay
    }

    /// A server with no sessions.
    pub fn new(time_source: TS, listener: TL, delay: D) -> (r: Self)
        ensures
            r@.broker.topics == Seq::<crate::topics::EntryView>::empty(),
            r@.broker.sessions == Seq::<SessionView<MAX_TOPIC_NAME_LENGTH, MAX_PAYLOAD_SIZE>>::empty(),
            r@.connections == Seq::<(u128, Option<S>)>::empty(),
            r@.buffers == Seq::<SessionReadBuffer<MAX_PAYLOAD_SIZE>>::empty(),
            r.held_listener() == listener,
            r.held_delay() == delay,
    {
        PicoBrokerServer {
            time_source,
            listener,
            delay,
            broker: PicoBroker::new(),
            connection_manager: ConnectionManager::new(),
            buffer_manager: BufferManager::new(),
        }
    }

    /// The listener, to accept connections with.
    pub fn listener_mut(&mut self) -> (r: &mut TL)
        ensures
            *r == old(self).held_listener(),
            final(self).held_listener() == *final(r),
            final(self).held_delay() == old(self).held_delay(),
            final(self)@ == old(self)@,
    {
        &mut self.listener
    }

    /// The delay, to pause between rounds of the network loop.
    pub fn delay(&self) -> (r: &D)
        ensures
            *r == self.held_delay(),
    {
        &self.delay
    }

    /// Removes session `session_id` from the broker, releases its stream and drops its read
    /// buffer.
    pub fn remove_session(&mut self, session_id: u128)
        ensures
            final(self)@ == server_without(old(self)@, session_id),
    {
        let _ = self.broker.remove_session(session_id);
        let _ = self.connection_manager.remove_session(session_id);
        let _ = self.buffer_manager.remove_session(session_id);
    }

    fn remove_listed(&mut self, slots: &[Option<u128>])
        ensures
            final(self)@ == server_without_all(old(self)@, present(slots@)),
    {
        let n = slots.len();
        let mut k: usize = 0;
        while k < n
            invariant
                n == slots@.len(),
                k <= n,
                self@ == server_without_all(old(self)@, present(slots@.take(k as int))),
            decreases n - k,
        {
            let ghost before = present(slots@.take(k as int));
            assert(slots@.take(k + 1).drop_last() =~= slots@.take(k as int));
            if let Some(session_id) = slots[k] {
                self.remove_session(session_id);
                assert(present(slots@.take(k + 1)) =~= before.push(session_id));
                assert(present(slots@.take(k + 1)).drop_last() =~= before);
            } else {
                assert(present(slots@.take(k + 1)) =~= before);
            }
            k = k + 1;
        }
        assert(slots@.take(n as int) =~= slots@);
    }

    /// Removes every disconnected session, then every session whose keep-alive has run out
    /// at the time read from the clock.
    pub fn cleanup_disconnected(&mut self)
        ensures
            ({
                let v1 = server_without_all(
                    old(self)@,
                    disconnected_ids(old(self)@.broker, MAX_SESSIONS as nat),
                );
                exists|now: u128|
                    final(self)@ == server_without_all(
                        v1,
                        #[trigger] expired_ids(v1.broker, now, MAX_SESSIONS as nat),
                    )
            }),
    {
        let disconnected = self.broker.get_disconnected_sessions();
        assert(present(disconnected@) == disconnected_ids(old(self)@.broker, MAX_SESSIONS as nat));
        self.remove_listed(&disconnected);
        let ghost v1 = self@;
        assert(v1 == server_without_all(old(self)@, disconnected_ids(old(self)@.broker, MAX_SESSIONS as nat)));
        let current_time = self.time_source.now_nano_secs();
        let expired = self.broker.get_expired_sessions(current_time);
        assert(present(expired@) == expired_ids(v1.broker, current_time, MAX_SESSIONS as nat));
        self.remove_listed(&expired);
        assert(self@ == server_without_all(v1, expired_ids(v1.broker, current_time, MAX_SESSIONS as nat)));
    }

    /// Clears the read buffer of session `session_id` when it is full, so that reading can
    /// go on; the buffer is made if the session has none.
    pub fn ensure_buffer_space(&mut self, session_id: u128) -> (r: Result<(), BrokerError>)
        requires
            Self::buffer_slots() > 0,
        ensures
            r == Ok::<(), BrokerError>(()),
            final(self)@.broker == old(self)@.broker,
            final(self)@.connections == old(self)@.connections,
            BufferManager::<MAX_PAYLOAD_SIZE, MAX_SESSIONS>::slot_changed(
                old(self)@.buffers,
                session_id,
                final(self)@.buffers,
            ),
            ({
                let pending = BufferManager::<MAX_PAYLOAD_SIZE, MAX_SESSIONS>::pending(old(self)@.buffers, session_id);
                final(self)@.buffers[BufferManager::<MAX_PAYLOAD_SIZE, MAX_SESSIONS>::slot_for(
                    old(self)@.buffers,
                    session_id,
                )]@ == if pending.len() == MAX_PAYLOAD_SIZE {
                    Seq::<u8>::empty()
                } else {
                    pending
                }
            }),
    {
        let remaining = self.buffer_manager.get_remaining_space(session_id);
        let ghost v = old(self)@.buffers;
        let ghost w = self.buffer_manager@;
        proof {
            BufferManager::<MAX_PAYLOAD_SIZE, MAX_SESSIONS>::lemma_lookup_stable(v, session_id, w);
            BufferManager::<MAX_PAYLOAD_SIZE, MAX_SESSIONS>::lemma_looked_up_slot_changed(v, session_id, w);
            crate::server::buffer_manager::lemma_first_index_props(buffer_ids(w), session_id);
        }
        if remaining == 0 {
            let buffer = self.buffer_manager.get_buffer_mut(session_id);
            buffer.clear();
            proof {
                let k = BufferManager::<MAX_PAYLOAD_SIZE, MAX_SESSIONS>::slot_for(v, session_id);
                BufferManager::<MAX_PAYLOAD_SIZE, MAX_SESSIONS>::lemma_slot_changed_update(
                    v,
                    session_id,
                    w,
                    self.buffer_manager@[k],
                );
            }
        }
        Ok(())
    }

    /// Takes the first complete packet out of the read buffer of session `session_id` and
    /// queues it for the broker, stamped with the time read from the clock. A packet that
    /// fails to decode is not reported as an error; its bytes stay in the buffer.
    pub fn process_received_data(&mut self, session_id: u128) -> (r: Result<(), BrokerError>)
        requires
            Self::buffer_slots() > 0,
        ensures
            final(self)@.connections == old(self)@.connections,
            BufferManager::<MAX_PAYLOAD_SIZE, MAX_SESSIONS>::slot_changed(
                old(self)@.buffers,
                session_id,
                final(self)@.buffers,
            ),
            exists|d: Result<Option<Packet<MAX_TOPIC_NAME_LENGTH, MAX_PAYLOAD_SIZE>>, ProtocolError>|
                {
                    &&& #[trigger] decoded(
                        BufferManager::<MAX_PAYLOAD_SIZE, MAX_SESSIONS>::pending(old(self)@.buffers, session_id),
                        d,
                        final(self)@.buffers[BufferManager::<MAX_PAYLOAD_SIZE, MAX_SESSIONS>::slot_for(
                            old(self)@.buffers,
                            session_id,
                        )]@,
                    )
                    &&& match d {
                        Ok(Some(p)) => exists|now: u128| (r, final(self)@.broker) == #[trigger] broker_received(
                            old(self)@.broker,
                            session_id,
                            p,
                            now,
                            PicoBroker::<
                                MAX_TOPIC_NAME_LENGTH,
                                MAX_PAYLOAD_SIZE,
                                QUEUE_SIZE,
                                MAX_SESSIONS,
                                MAX_TOPICS,
                                MAX_SUBSCRIBERS_PER_TOPIC,
                            >::queue_limit(),
                            QUEUE_SIZE,
                        ),
                        _ => r == Ok::<(), BrokerError>(()) && final(self)@.broker == old(self)@.broker,
                    }
                },
    {
        let current_time = self.time_source.now_nano_secs();
        let decoded_packet = self.buffer_manager.try_decode_packet::<MAX_TOPIC_NAME_LENGTH>(session_id);
        let ghost b0 = self@.broker;
        let r = match decoded_packet {
            Ok(Some(packet)) => {
                let rr = self.broker.queue_packet_received_from_client(session_id, packet, current_time);
                assert((rr, self@.broker) == broker_received(
                    b0,
                    session_id,
                    packet,
                    current_time,
                    PicoBroker::<
                        MAX_TOPIC_NAME_LENGTH,
                        MAX_PAYLOAD_SIZE,
                        QUEUE_SIZE,
                        MAX_SESSIONS,
                        MAX_TOPICS,
                        MAX_SUBSCRIBERS_PER_TOPIC,
                    >::queue_limit(),
                    QUEUE_SIZE,
                ));
                rr
            },
            Ok(None) => Ok(()),
            Err(_) => Ok(()),
        };
        assert(decoded(
            BufferManager::<MAX_PAYLOAD_SIZE, MAX_SESSIONS>::pending(old(self)@.buffers, session_id),
            decoded_packet,
            self@.buffers[BufferManager::<MAX_PAYLOAD_SIZE, MAX_SESSIONS>::slot_for(old(self)@.buffers, session_id)]@,
        ));
        assert(b0 == old(self)@.broker);
        proof {
            if let Ok(Some(p)) = decoded_packet {
                assert((r, self@.broker) == broker_received(
                    old(self)@.broker,
                    session_id,
                    p,
                    current_time,
                    PicoBroker::<
                        MAX_TOPIC_NAME_LENGTH,
                        MAX_PAYLOAD_SIZE,
                        QUEUE_SIZE,
                        MAX_SESSIONS,
                        MAX_TOPICS,
                        MAX_SUBSCRIBERS_PER_TOPIC,
                    >::queue_limit(),
                    QUEUE_SIZE,
                ));
            }
        }
        r
    }

    /// The room left in the read buffer of session `session_id`, which is made if it has none.
    pub fn get_remaining_space(&mut self, session_id: u128) -> (r: usize)
        requires
            Self::buffer_slots() > 0,
        ensures
            final(self)@.broker == old(self)@.broker,
            final(self)@.connections == old(self)@.connections,
            BufferManager::<MAX_PAYLOAD_SIZE, MAX_SESSIONS>::looked_up(old(self)@.buffers, session_id, final(self)@.buffers),
            r == MAX_PAYLOAD_SIZE - BufferManager::<MAX_PAYLOAD_SIZE, MAX_SESSIONS>::pending(
                old(self)@.buffers,
                session_id,
            ).len(),
    {
        let r = self.buffer_manager.get_remaining_space(session_id);
        proof {
            BufferManager::<MAX_PAYLOAD_SIZE, MAX_SESSIONS>::lemma_looked_up_slot_changed(
                old(self)@.buffers,
                session_id,
                self@.buffers,
            );
        }
        r
    }

    /// Appends bytes read from session `session_id` to its read buffer, as many as fit.
    pub fn append_received(&mut self, session_id: u128, data: &[u8])
        requires
            Self::buffer_slots() > 0,
        ensures
            final(self)@.broker == old(self)@.broker,
            final(self)@.connections == old(self)@.connections,
            BufferManager::<MAX_PAYLOAD_SIZE, MAX_SESSIONS>::slot_changed(
                old(self)@.buffers,
                session_id,
                final(self)@.buffers,
            ),
            ({
                let pending = BufferManager::<MAX_PAYLOAD_SIZE, MAX_SESSIONS>::pending(old(self)@.buffers, session_id);
                final(self)@.buffers[BufferManager::<MAX_PAYLOAD_SIZE, MAX_SESSIONS>::slot_for(
                    old(self)@.buffers,
                    session_id,
                )]@ == pending + data@.take(
                    if data@.len() + pending.len() <= SessionReadBuffer::<MAX_PAYLOAD_SIZE>::capacity() {
                        data@.len() as int
                    } else {
                        SessionReadBuffer::<MAX_PAYLOAD_SIZE>::capacity() - pending.len()
                    },
                )
            }),
    {
        let _ = self.buffer_manager.get_remaining_space(session_id);
        let ghost w = self.buffer_manager@;
        proof {
            BufferManager::<MAX_PAYLOAD_SIZE, MAX_SESSIONS>::lemma_lookup_stable(old(self)@.buffers, session_id, w);
            BufferManager::<MAX_PAYLOAD_SIZE, MAX_SESSIONS>::lemma_looked_up_slot_changed(
                old(self)@.buffers,
                session_id,
                w,
            );
            crate::server::buffer_manager::lemma_first_index_props(buffer_ids(w), session_id);
        }
        let buffer = self.buffer_manager.get_buffer_mut(session_id);
        buffer.append(data);
        proof {
            let k = BufferManager::<MAX_PAYLOAD_SIZE, MAX_SESSIONS>::slot_for(old(self)@.buffers, session_id);
            BufferManager::<MAX_PAYLOAD_SIZE, MAX_SESSIONS>::lemma_slot_changed_update(
                old(self)@.buffers,
                session_id,
                w,
                self.buffer_manager@[k],
            );
        }
    }

    /// The stream of session `session_id`, to read from or write to.
    pub fn get_stream_mut(&mut self, session_id: u128) -> (r: Option<&mut S>)
        ensures
            final(self)@.broker == old(self)@.broker,
            final(self)@.buffers == old(self)@.buffers,
            match first_index_of(slot_ids(old(self)@.connections), session_id) {
                Some(i) => match old(self)@.connections[i].1 {
                    Some(s) => r is Some && *r.unwrap() == s && final(self)@.connections == old(
                        self,
                    )@.connections.update(i, (session_id, Some(*final(r.unwrap())))),
                    None => r is None && final(self)@.connections == old(self)@.connections,
                },
                None => r is None && final(self)@.connections == old(self)@.connections,
            },
    {
        self.connection_manager.get_stream_mut(session_id)
    }

    /// Marks session `session_id` disconnected after its connection was lost, and gives the
    /// error that reports it.
    pub fn drop_connection(&mut self, session_id: u128) -> (r: BrokerError)
        ensures
            r == (BrokerError::SessionDisconnected { session_id }),
            final(self)@.broker == broker_disconnected(old(self)@.broker, session_id),
            final(self)@.connections == old(self)@.connections,
            final(self)@.buffers == old(self)@.buffers,
    {
        let _ = self.broker.mark_session_disconnected(session_id);
        BrokerError::SessionDisconnected { session_id }
    }

    /// The decision after reading from session `session_id` failed with `error`: a closed
    /// connection or a failed read disconnects the session; any other error is let pass.
    pub fn handle_read_error(&mut self, session_id: u128, error: NetworkError) -> (r: Result<(), BrokerError>)
        ensures
            final(self)@.connections == old(self)@.connections,
            final(self)@.buffers == old(self)@.buffers,
            error == NetworkError::ConnectionClosed || error == NetworkError::ReadFailed ==> r == Err::<
                (),
                BrokerError,
            >(BrokerError::SessionDisconnected { session_id }) && final(self)@.broker == broker_disconnected(
                old(self)@.broker,
                session_id,
            ),
            !(error == NetworkError::ConnectionClosed || error == NetworkError::ReadFailed) ==> r == Ok::<
                (),
                BrokerError,
            >(()) && final(self)@.broker == old(self)@.broker,
    {
        match error {
            NetworkError::ConnectionClosed | NetworkError::ReadFailed => Err(self.drop_connection(session_id)),
            _ => Ok(()),
        }
    }

    /// The decision after writing to session `session_id`, with `total_written` bytes of the
    /// packet already sent: the new total, or the error that ends the write. Writing nothing,
    /// a closed connection and a failed write disconnect the session; other errors leave the
    /// total as it was, to try again.
    pub fn handle_write_result(
        &mut self,
        session_id: u128,
        total_written: usize,
        result: Result<usize, NetworkError>,
    ) -> (r: Result<usize, BrokerError>)
        requires
            result matches Ok(n) ==> total_written + n <= usize::MAX,
        ensures
            final(self)@.connections == old(self)@.connections,
            final(self)@.buffers == old(self)@.buffers,
            match result {
                Ok(0) => r == Err::<usize, BrokerError>(BrokerError::SessionDisconnected { session_id })
                    && final(self)@.broker == broker_disconnected(old(self)@.broker, session_id),
                Ok(n) => r == Ok::<usize, BrokerError>((total_written + n) as usize) && final(self)@.broker
                    == old(self)@.broker,
                Err(e) => if e == NetworkError::ConnectionClosed || e == NetworkError::WriteFailed {
                    r == Err::<usize, BrokerError>(BrokerError::SessionDisconnected { session_id })
                        && final(self)@.broker == broker_disconnected(old(self)@.broker, session_id)
                } else {
                    r == Ok::<usize, BrokerError>(total_written) && final(self)@.broker == old(self)@.broker
                },
            },
    {
        match result {
            Ok(0) => Err(self.drop_connection(session_id)),
            Ok(n) => Ok(total_written + n),
            Err(NetworkError::ConnectionClosed) | Err(NetworkError::WriteFailed) => Err(
                self.drop_connection(session_id),
            ),
            Err(_) => Ok(total_written),
        }
    }

    /// The decision after flushing the stream of session `session_id`: a failed flush
    /// disconnects the session and reports the network error.
    pub fn handle_flush_result(&mut self, session_id: u128, result: Result<(), NetworkError>) -> (r: Result<
        (),
        BrokerError,
    >)
        ensures
            final(self)@.connections == old(self)@.connections,
            final(self)@.buffers == old(self)@.buffers,
            match result {
                Ok(()) => r == Ok::<(), BrokerError>(()) && final(self)@.broker == old(self)@.broker,
                Err(e) => r == Err::<(), BrokerError>(BrokerError::Network(e)) && final(self)@.broker
                    == broker_disconnected(old(self)@.broker, session_id),
            },
    {
        match result {
            Ok(()) => Ok(()),
            Err(e) => {
                let _ = self.drop_connection(session_id);
                Err(BrokerError::Network(e))
            },
        }
    }

    /// Registers an accepted connection as a new session, identified by the time read from
    /// the clock, and stores its stream; when the broker refuses it, the stream is handed
    /// back to be closed.
    pub fn register_connection(&mut self, stream: S) -> (r: Result<u128, (S, BrokerError)>)
        ensures
            final(self)@.buffers == old(self)@.buffers,
            exists|now: u128|
                {
                    let (rr, sessions) = #[trigger] crate::session::SessionRegistry::<
                        MAX_TOPIC_NAME_LENGTH,
                        MAX_PAYLOAD_SIZE,
                        QUEUE_SIZE,
                        MAX_SESSIONS,
                        MAX_TOPICS,
                        MAX_SUBSCRIBERS_PER_TOPIC,
                    >::after_register(old(self)@.broker.sessions, now, KEEP_ALIVE_SECS, now);
                    &&& final(self)@.broker.topics == old(self)@.broker.topics
                    &&& final(self)@.broker.sessions == sessions
                    &&& match rr {
                        Ok(()) => r == Ok::<u128, (S, BrokerError)>(now) && final(self)@.connections
                            == ConnectionManager::<S, MAX_SESSIONS>::after_set(old(self)@.connections, now, stream),
                        Err(e) => r == Err::<u128, (S, BrokerError)>((stream, e)) && final(self)@.connections
                            == old(self)@.connections,
                    }
                },
    {
        let current_time = self.time_source.now_nano_secs();
        let session_id = current_time;
        let ghost reg = crate::session::SessionRegistry::<
            MAX_TOPIC_NAME_LENGTH,
            MAX_PAYLOAD_SIZE,
            QUEUE_SIZE,
            MAX_SESSIONS,
            MAX_TOPICS,
            MAX_SUBSCRIBERS_PER_TOPIC,
        >::after_register(old(self)@.broker.sessions, current_time, KEEP_ALIVE_SECS, current_time);
        match self.broker.register_new_session(session_id, KEEP_ALIVE_SECS, current_time) {
            Ok(()) => {
                self.connection_manager.set_stream(session_id, stream);
                assert(reg.0 == Ok::<(), BrokerError>(()));
                Ok(session_id)
            },
            Err(e) => {
                assert(reg.0 == Err::<(), BrokerError>(e));
                Err((stream, e))
            },
        }
    }

    /// Removes the disconnected and expired sessions, then handles every packet received.
    pub fn process_session_messages(&mut self) -> (r: Result<(), BrokerError>)
        ensures
            ({
                let v1 = server_without_all(
                    old(self)@,
                    disconnected_ids(old(self)@.broker, MAX_SESSIONS as nat),
                );
                exists|now: u128|
                    {
                        let v2 = server_without_all(v1, #[trigger] expired_ids(v1.broker, now, MAX_SESSIONS as nat));
                        let ids = ids_where(
                            v2.broker.sessions,
                            |s: SessionView<MAX_TOPIC_NAME_LENGTH, MAX_PAYLOAD_SIZE>| true,
                        );
                        let (rr, b) = PicoBroker::<
                            MAX_TOPIC_NAME_LENGTH,
                            MAX_PAYLOAD_SIZE,
                            QUEUE_SIZE,
                            MAX_SESSIONS,
                            MAX_TOPICS,
                            MAX_SUBSCRIBERS_PER_TOPIC,
                        >::drain_all(v2.broker, ids);
                        &&& r == rr
                        &&& final(self)@ == ServerView { broker: b, ..v2 }
                    }
            }),
    {
        self.cleanup_disconnected();
        self.broker.process_all_session_packets()
    }

    /// The identifiers of all sessions, in order, in the first slots.
    pub fn get_all_sessions(&self) -> (r: [Option<u128>; MAX_SESSIONS])
        ensures
            r@ == padded(
                ids_where(self@.broker.sessions, |s: SessionView<MAX_TOPIC_NAME_LENGTH, MAX_PAYLOAD_SIZE>| true),
                MAX_SESSIONS as nat,
            ),
    {
        self.broker.get_all_sessions()
    }

    /// Takes the oldest packet waiting to be sent to session `session_id`.
    pub fn dequeue_packet_to_send_to_client(&mut self, session_id: u128) -> (r: Result<
        Option<Packet<MAX_TOPIC_NAME_LENGTH, MAX_PAYLOAD_SIZE>>,
        BrokerError,
    >)
        ensures
            final(self)@.connections == old(self)@.connections,
            final(self)@.buffers == old(self)@.buffers,
            final(self)@.broker.topics == old(self)@.broker.topics,
            r == crate::session::dequeue_packet(old(self)@.broker.sessions, session_id, false).0,
            final(self)@.broker.sessions == crate::session::dequeue_packet(
                old(self)@.broker.sessions,
                session_id,
                false,
            ).1,
    {
        self.broker.dequeue_packet_to_send_to_client(session_id)
    }
}

} // verus!
