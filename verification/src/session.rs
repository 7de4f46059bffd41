//! Sessions: a client's state and its two packet queues, and the registry of sessions.
use vstd::prelude::*;
use crate::client::ClientId;
use crate::error::BrokerError;
use crate::protocol::heapless::{without, HeaplessVec};
use crate::protocol::packets::Packet;

verus! {

/// Where a session stands in its life.
#[derive(Debug, Clone, Copy, PartialEq, Eq, Structural)]
pub enum SessionState {
    Connecting,
    Connected,
    Disconnected,
}

impl Default for SessionState {
    fn default() -> (r: Self)
        ensures
            r == SessionState::Connecting,
    {
        SessionState::Connecting
    }
}

/// A session, as plain values.
pub ghost struct SessionView<const MAX_TOPIC_NAME_LENGTH: usize, const MAX_PAYLOAD_SIZE: usize> {
    pub session_id: u128,
    pub client_id: Option<ClientId>,
    pub state: SessionState,
    pub keep_alive_secs: u16,
    pub last_activity: u128,
    pub rx_queue: Seq<Option<Packet<MAX_TOPIC_NAME_LENGTH, MAX_PAYLOAD_SIZE>>>,
    pub tx_queue: Seq<Option<Packet<MAX_TOPIC_NAME_LENGTH, MAX_PAYLOAD_SIZE>>>,
}

/// A client session: its identity, state, keep-alive, and the packets it received
/// (`rx_queue`) and is to send (`tx_queue`).
#[derive(Debug, Clone, Copy, PartialEq, Eq)]
pub struct Session<const MAX_TOPIC_NAME_LENGTH: usize, const MAX_PAYLOAD_SIZE: usize, const QUEUE_SIZE: usize> {
    pub session_id: u128,
    pub client_id: Option<ClientId>,
    pub state: SessionState,
    pub keep_alive_secs: u16,
    pub last_activity: u128,
    pub rx_queue: HeaplessVec<Option<Packet<MAX_TOPIC_NAME_LENGTH, MAX_PAYLOAD_SIZE>>, QUEUE_SIZE>,
    pub tx_queue: HeaplessVec<Option<Packet<MAX_TOPIC_NAME_LENGTH, MAX_PAYLOAD_SIZE>>, QUEUE_SIZE>,
}

impl<const MAX_TOPIC_NAME_LENGTH: usize, const MAX_PAYLOAD_SIZE: usize, const QUEUE_SIZE: usize> View for Session<
    MAX_TOPIC_NAME_LENGTH,
    MAX_PAYLOAD_SIZE,
    QUEUE_SIZE,
> {
    type V = SessionView<MAX_TOPIC_NAME_LENGTH, MAX_PAYLOAD_SIZE>;

    open spec fn view(&self) -> SessionView<MAX_TOPIC_NAME_LENGTH, MAX_PAYLOAD_SIZE> {
        SessionView {
            session_id: self.session_id,
            client_id: self.client_id,
            state: self.state,
            keep_alive_secs: self.keep_alive_secs,
            last_activity: self.last_activity,
            rx_queue: self.rx_queue@,
            tx_queue: self.tx_queue@,
        }
    }
}

/// A fresh session: connecting, with no client identifier and empty queues.
pub open spec fn new_session_view<const MAX_TOPIC_NAME_LENGTH: usize, const MAX_PAYLOAD_SIZE: usize>(
    session_id: u128,
    keep_alive_secs: u16,
    current_time: u128,
) -> SessionView<MAX_TOPIC_NAME_LENGTH, MAX_PAYLOAD_SIZE> {
    SessionView {
        session_id,
        client_id: None,
        state: SessionState::Connecting,
        keep_alive_secs,
        last_activity: current_time,
        rx_queue: Seq::empty(),
        tx_queue: Seq::empty(),
    }
}

/// Whether more time than one and a half keep-alive intervals has passed since the
/// session's last activity. Times are nanoseconds and the keep-alive is in seconds; a
/// clock that went back counts as no time.
pub open spec fn session_expired<const MAX_TOPIC_NAME_LENGTH: usize, const MAX_PAYLOAD_SIZE: usize>(
    s: SessionView<MAX_TOPIC_NAME_LENGTH, MAX_PAYLOAD_SIZE>,
    current_time: u128,
) -> bool {
    let elapsed = if current_time >= s.last_activity {
        current_time - s.last_activity
    } else {
        0
    };
    elapsed > s.keep_alive_secs as int * EXPIRY_NANOS_PER_KEEP_ALIVE_SEC
}

/// The expiry limit, in nanoseconds, for each second of keep-alive: one and a half seconds.
pub const EXPIRY_NANOS_PER_KEEP_ALIVE_SEC: u128 = 1_500_000_000;

/// A session made at `current_time` belongs to `session_id`, has the keep-alive it was made
/// with, no client identifier yet, empty queues, and is still connecting; it counts as
/// expired at a later time exactly when more than one and a half keep-alive intervals have
/// passed since it was made, and never at an earlier time.
pub proof fn lemma_new_session_fresh<const MAX_TOPIC_NAME_LENGTH: usize, const MAX_PAYLOAD_SIZE: usize>(
    session_id: u128,
    keep_alive_secs: u16,
    current_time: u128,
)
    ensures
        ({
            let s = new_session_view::<MAX_TOPIC_NAME_LENGTH, MAX_PAYLOAD_SIZE>(
                session_id,
                keep_alive_secs,
                current_time,
            );
            &&& s.session_id == session_id
            &&& s.keep_alive_secs == keep_alive_secs
            &&& s.client_id is None
            &&& s.state == SessionState::Connecting
            &&& s.rx_queue.len() == 0
            &&& s.tx_queue.len() == 0
            &&& forall|later: u128|
                #![trigger session_expired(s, later)]
                session_expired(s, later) <==> later - current_time > keep_alive_secs as int
                    * EXPIRY_NANOS_PER_KEEP_ALIVE_SEC
        }),
{
}

impl<const MAX_TOPIC_NAME_LENGTH: usize, const MAX_PAYLOAD_SIZE: usize, const QUEUE_SIZE: usize> Session<
    MAX_TOPIC_NAME_LENGTH,
    MAX_PAYLOAD_SIZE,
    QUEUE_SIZE,
> {
    /// The most packets a queue holds.
    pub open spec fn queue_limit() -> nat {
        HeaplessVec::<Option<Packet<MAX_TOPIC_NAME_LENGTH, MAX_PAYLOAD_SIZE>>, QUEUE_SIZE>::limit()
    }

    /// A new session.
    pub fn new(session_id: u128, keep_alive_secs: u16, current_time: u128) -> (r: Self)
        ensures
            r@ == new_session_view::<MAX_TOPIC_NAME_LENGTH, MAX_PAYLOAD_SIZE>(
                session_id,
                keep_alive_secs,
                current_time,
            ),
    {
        Session {
            session_id,
            client_id: None,
            state: SessionState::Connecting,
            keep_alive_secs,
            last_activity: current_time,
            rx_queue: HeaplessVec::new(),
            tx_queue: HeaplessVec::new(),
        }
    }

    /// Whether the keep-alive has run out at `current_time`.
    pub fn is_expired(&self, current_time: u128) -> (r: bool)
        ensures
            r == session_expired(self@, current_time),
    {
        let timeout_nanos = (self.keep_alive_secs as u128) * EXPIRY_NANOS_PER_KEEP_ALIVE_SEC;
        let elapsed = current_time.saturating_sub(self.last_activity);
        elapsed > timeout_nanos
    }

    /// Records activity at `current_time`.
    pub fn update_activity(&mut self, current_time: u128)
        ensures
            final(self)@ == (SessionView { last_activity: current_time, ..old(self)@ }),
    {
        self.last_activity = current_time;
    }

    /// Queues a packet to send; fails when the queue is full.
    pub fn queue_tx_packet(&mut self, packet: Packet<MAX_TOPIC_NAME_LENGTH, MAX_PAYLOAD_SIZE>) -> (r: Result<
        (),
        BrokerError,
    >)
        ensures
            old(self)@.tx_queue.len() < Self::queue_limit() ==> r == Ok::<(), BrokerError>(())
                && final(self)@ == (SessionView {
                tx_queue: old(self)@.tx_queue.push(Some(packet)),
                ..old(self)@
            }),
            old(self)@.tx_queue.len() >= Self::queue_limit() ==> r == Err::<(), BrokerError>(
                BrokerError::BufferFull,
            ) && final(self)@ == old(self)@,
    {
        match self.tx_queue.push(Some(packet)) {
            Ok(()) => Ok(()),
            Err(_) => Err(BrokerError::BufferFull),
        }
    }

    /// Takes the oldest packet to send.
    pub fn dequeue_tx_packet(&mut self) -> (r: Option<Packet<MAX_TOPIC_NAME_LENGTH, MAX_PAYLOAD_SIZE>>)
        ensures
            old(self)@.tx_queue.len() == 0 ==> r is None && final(self)@ == old(self)@,
            old(self)@.tx_queue.len() > 0 ==> r == old(self)@.tx_queue[0] && final(self)@ == (
            SessionView { tx_queue: old(self)@.tx_queue.drop_first(), ..old(self)@ }),
    {
        match self.tx_queue.dequeue_front() {
            Some(p) => p,
            None => None,
        }
    }

    /// Queues a received packet; fails when the queue is full.
    pub fn queue_rx_packet(&mut self, packet: Packet<MAX_TOPIC_NAME_LENGTH, MAX_PAYLOAD_SIZE>) -> (r: Result<
        (),
        BrokerError,
    >)
        ensures
            old(self)@.rx_queue.len() < Self::queue_limit() ==> r == Ok::<(), BrokerError>(())
                && final(self)@ == (SessionView {
                rx_queue: old(self)@.rx_queue.push(Some(packet)),
                ..old(self)@
            }),
            old(self)@.rx_queue.len() >= Self::queue_limit() ==> r == Err::<(), BrokerError>(
                BrokerError::BufferFull,
            ) && final(self)@ == old(self)@,
    {
        match self.rx_queue.push(Some(packet)) {
            Ok(()) => Ok(()),
            Err(_) => Err(BrokerError::BufferFull),
        }
    }

    /// Takes the oldest received packet.
    pub fn dequeue_rx_packet(&mut self) -> (r: Option<Packet<MAX_TOPIC_NAME_LENGTH, MAX_PAYLOAD_SIZE>>)
        ensures
            old(self)@.rx_queue.len() == 0 ==> r is None && final(self)@ == old(self)@,
            old(self)@.rx_queue.len() > 0 ==> r == old(self)@.rx_queue[0] && final(self)@ == (
            SessionView { rx_queue: old(self)@.rx_queue.drop_first(), ..old(self)@ }),
    {
        match self.rx_queue.dequeue_front() {
            Some(p) => p,
            None => None,
        }
    }
}

/// The sessions of a registry, as plain values.
pub open spec fn sessions_view<
    const MAX_TOPIC_NAME_LENGTH: usize,
    const MAX_PAYLOAD_SIZE: usize,
    const QUEUE_SIZE: usize,
>(t: Seq<Option<Session<MAX_TOPIC_NAME_LENGTH, MAX_PAYLOAD_SIZE, QUEUE_SIZE>>>) -> Seq<
    SessionView<MAX_TOPIC_NAME_LENGTH, MAX_PAYLOAD_SIZE>,
> {
    t.map_values(|o: Option<Session<MAX_TOPIC_NAME_LENGTH, MAX_PAYLOAD_SIZE, QUEUE_SIZE>>| o.unwrap()@)
}

/// No two sessions share an identifier.
pub open spec fn ids_unique<const MAX_TOPIC_NAME_LENGTH: usize, const MAX_PAYLOAD_SIZE: usize>(
    v: Seq<SessionView<MAX_TOPIC_NAME_LENGTH, MAX_PAYLOAD_SIZE>>,
) -> bool {
    forall|i: int, j: int|
        0 <= i < v.len() && 0 <= j < v.len() && i != j ==> #[trigger] v[i].session_id
            != #[trigger] v[j].session_id
}

/// Where the session `session_id` stands in `v`, if it is there.
pub open spec fn session_index<const MAX_TOPIC_NAME_LENGTH: usize, const MAX_PAYLOAD_SIZE: usize>(
    v: Seq<SessionView<MAX_TOPIC_NAME_LENGTH, MAX_PAYLOAD_SIZE>>,
    session_id: u128,
) -> Option<int> {
    if exists|i: int| 0 <= i < v.len() && v[i].session_id == session_id {
        Some(choose|i: int| 0 <= i < v.len() && v[i].session_id == session_id)
    } else {
        None
    }
}

/// The identifiers of the sessions of `v` for which `keep` holds, in order.
pub open spec fn ids_where<const MAX_TOPIC_NAME_LENGTH: usize, const MAX_PAYLOAD_SIZE: usize>(
    v: Seq<SessionView<MAX_TOPIC_NAME_LENGTH, MAX_PAYLOAD_SIZE>>,
    keep: spec_fn(SessionView<MAX_TOPIC_NAME_LENGTH, MAX_PAYLOAD_SIZE>) -> bool,
) -> Seq<u128>
    decreases v.len(),
{
    if v.len() == 0 {
        Seq::empty()
    } else if keep(v.last()) {
        ids_where(v.drop_last(), keep).push(v.last().session_id)
    } else {
        ids_where(v.drop_last(), keep)
    }
}

/// `ids` laid out in `n` slots, the rest empty.
pub open spec fn padded(ids: Seq<u128>, n: nat) -> Seq<Option<u128>> {
    Seq::new(n, |k: int| if k < ids.len() { Some(ids[k]) } else { None })
}

/// The result of changing the session `session_id` by `f`: not found, or changed.
pub open spec fn update_session<const MAX_TOPIC_NAME_LENGTH: usize, const MAX_PAYLOAD_SIZE: usize>(
    v: Seq<SessionView<MAX_TOPIC_NAME_LENGTH, MAX_PAYLOAD_SIZE>>,
    session_id: u128,
    f: spec_fn(SessionView<MAX_TOPIC_NAME_LENGTH, MAX_PAYLOAD_SIZE>) -> SessionView<
        MAX_TOPIC_NAME_LENGTH,
        MAX_PAYLOAD_SIZE,
    >,
) -> (Result<(), BrokerError>, Seq<SessionView<MAX_TOPIC_NAME_LENGTH, MAX_PAYLOAD_SIZE>>) {
    match session_index(v, session_id) {
        Some(i) => (Ok(()), v.update(i, f(v[i]))),
        None => (Err(BrokerError::SessionNotFound { session_id }), v),
    }
}

/// The result of queueing `packet` on one of the queues of session `session_id`; `rx`
/// names the receive queue, else the send queue.
pub open spec fn queue_packet<const MAX_TOPIC_NAME_LENGTH: usize, const MAX_PAYLOAD_SIZE: usize>(
    v: Seq<SessionView<MAX_TOPIC_NAME_LENGTH, MAX_PAYLOAD_SIZE>>,
    session_id: u128,
    packet: Packet<MAX_TOPIC_NAME_LENGTH, MAX_PAYLOAD_SIZE>,
    rx: bool,
    queue_limit: nat,
    queue_size: usize,
) -> (Result<(), BrokerError>, Seq<SessionView<MAX_TOPIC_NAME_LENGTH, MAX_PAYLOAD_SIZE>>) {
    match session_index(v, session_id) {
        Some(i) => {
            let q = if rx {
                v[i].rx_queue
            } else {
                v[i].tx_queue
            };
            if q.len() < queue_limit {
                let s = if rx {
                    SessionView { rx_queue: q.push(Some(packet)), ..v[i] }
                } else {
                    SessionView { tx_queue: q.push(Some(packet)), ..v[i] }
                };
                (Ok(()), v.update(i, s))
            } else {
                (Err(BrokerError::SessionQueueFull { session_id, queue_size }), v)
            }
        },
        None => (Err(BrokerError::SessionNotFound { session_id }), v),
    }
}

/// The result of taking the oldest packet from one of the queues of session `session_id`.
pub open spec fn dequeue_packet<const MAX_TOPIC_NAME_LENGTH: usize, const MAX_PAYLOAD_SIZE: usize>(
    v: Seq<SessionView<MAX_TOPIC_NAME_LENGTH, MAX_PAYLOAD_SIZE>>,
    session_id: u128,
    rx: bool,
) -> (
    Result<Option<Packet<MAX_TOPIC_NAME_LENGTH, MAX_PAYLOAD_SIZE>>, BrokerError>,
    Seq<SessionView<MAX_TOPIC_NAME_LENGTH, MAX_PAYLOAD_SIZE>>,
) {
    match session_index(v, session_id) {
        Some(i) => {
            let q = if rx {
                v[i].rx_queue
            } else {
                v[i].tx_queue
            };
            if q.len() == 0 {
                (Ok(None), v)
            } else {
                let s = if rx {
                    SessionView { rx_queue: q.drop_first(), ..v[i] }
                } else {
                    SessionView { tx_queue: q.drop_first(), ..v[i] }
                };
                (Ok(q[0]), v.update(i, s))
            }
        },
        None => (Err(BrokerError::SessionNotFound { session_id }), v),
    }
}

/// In a registry whose identifiers are distinct, a session is found where it stands.
pub proof fn lemma_index_at<const MAX_TOPIC_NAME_LENGTH: usize, const MAX_PAYLOAD_SIZE: usize>(
    v: Seq<SessionView<MAX_TOPIC_NAME_LENGTH, MAX_PAYLOAD_SIZE>>,
    i: int,
)
    requires
        ids_unique(v),
        0 <= i < v.len(),
    ensures
        session_index(v, v[i].session_id) == Some(i),
{
    let k = choose|k: int| 0 <= k < v.len() && v[k].session_id == v[i].session_id;
    if k != i {
        assert(v[k].session_id != v[i].session_id);
    }
}

/// A session's queues are first in, first out: taking from a queue just after putting
/// `packet` into it gives the oldest packet it held, or `packet` itself when it held none.
pub proof fn lemma_queue_fifo<const MAX_TOPIC_NAME_LENGTH: usize, const MAX_PAYLOAD_SIZE: usize>(
    v: Seq<SessionView<MAX_TOPIC_NAME_LENGTH, MAX_PAYLOAD_SIZE>>,
    session_id: u128,
    packet: Packet<MAX_TOPIC_NAME_LENGTH, MAX_PAYLOAD_SIZE>,
    rx: bool,
    queue_limit: nat,
    queue_size: usize,
)
    requires
        ids_unique(v),
        queue_packet(v, session_id, packet, rx, queue_limit, queue_size).0 is Ok,
    ensures
        ({
            let w = queue_packet(v, session_id, packet, rx, queue_limit, queue_size).1;
            let i = session_index(v, session_id)->Some_0;
            let q = if rx {
                v[i].rx_queue
            } else {
                v[i].tx_queue
            };
            dequeue_packet(w, session_id, rx).0 == Ok::<
                Option<Packet<MAX_TOPIC_NAME_LENGTH, MAX_PAYLOAD_SIZE>>,
                BrokerError,
            >(if q.len() == 0 {
                Some(packet)
            } else {
                q[0]
            })
        }),
{
    let w = queue_packet(v, session_id, packet, rx, queue_limit, queue_size).1;
    let i = session_index(v, session_id)->Some_0;
    assert(v[i].session_id == session_id);
    assert(w[i].session_id == session_id);
    assert forall|a: int, b: int| 0 <= a < w.len() && 0 <= b < w.len() && a != b implies #[trigger] w[a].session_id
        != #[trigger] w[b].session_id by {
        assert(w[a].session_id == v[a].session_id);
        assert(w[b].session_id == v[b].session_id);
    }
    lemma_index_at(w, i);
}

/// The registry of sessions.
#[derive(Debug, Clone, Copy, PartialEq, Eq)]
pub struct SessionRegistry<
    const MAX_TOPIC_NAME_LENGTH: usize,
    const MAX_PAYLOAD_SIZE: usize,
    const QUEUE_SIZE: usize,
    const MAX_SESSIONS: usize,
    const MAX_TOPICS: usize,
    const MAX_SUBSCRIBERS_PER_TOPIC: usize,
> {
    sessions: HeaplessVec<Option<Session<MAX_TOPIC_NAME_LENGTH, MAX_PAYLOAD_SIZE, QUEUE_SIZE>>, MAX_SESSIONS>,
}

impl<
    const MAX_TOPIC_NAME_LENGTH: usize,
    const MAX_PAYLOAD_SIZE: usize,
    const QUEUE_SIZE: usize,
    const MAX_SESSIONS: usize,
    const MAX_TOPICS: usize,
    const MAX_SUBSCRIBERS_PER_TOPIC: usize,
> View for SessionRegistry<
    MAX_TOPIC_NAME_LENGTH,
    MAX_PAYLOAD_SIZE,
    QUEUE_SIZE,
    MAX_SESSIONS,
    MAX_TOPICS,
    MAX_SUBSCRIBERS_PER_TOPIC,
> {
    type V = Seq<SessionView<MAX_TOPIC_NAME_LENGTH, MAX_PAYLOAD_SIZE>>;

    closed spec fn view(&self) -> Seq<SessionView<MAX_TOPIC_NAME_LENGTH, MAX_PAYLOAD_SIZE>> {
        sessions_view(self.sessions@)
    }
}

impl<
    const MAX_TOPIC_NAME_LENGTH: usize,
    const MAX_PAYLOAD_SIZE: usize,
    const QUEUE_SIZE: usize,
    const MAX_SESSIONS: usize,
    const MAX_TOPICS: usize,
    const MAX_SUBSCRIBERS_PER_TOPIC: usize,
> SessionRegistry<
    MAX_TOPIC_NAME_LENGTH,
    MAX_PAYLOAD_SIZE,
    QUEUE_SIZE,
    MAX_SESSIONS,
    MAX_TOPICS,
    MAX_SUBSCRIBERS_PER_TOPIC,
> {
    #[verifier::type_invariant]
    closed spec fn inv(self) -> bool {
        &&& forall|i: int| 0 <= i < self.sessions@.len() ==> #[trigger] self.sessions@[i] is Some
        &&& ids_unique(self@)
    }

    /// The most packets a session queue holds.
    pub open spec fn queue_limit() -> nat {
        Session::<MAX_TOPIC_NAME_LENGTH, MAX_PAYLOAD_SIZE, QUEUE_SIZE>::queue_limit()
    }

    /// The most sessions the registry holds.
    pub open spec fn session_limit() -> nat {
        HeaplessVec::<Option<Session<MAX_TOPIC_NAME_LENGTH, MAX_PAYLOAD_SIZE, QUEUE_SIZE>>, MAX_SESSIONS>::limit()
    }

    /// What registering a new session answers, and the sessions after it.
    pub open spec fn after_register(
        v: Seq<SessionView<MAX_TOPIC_NAME_LENGTH, MAX_PAYLOAD_SIZE>>,
        session_id: u128,
        keep_alive_secs: u16,
        current_time: u128,
    ) -> (Result<(), BrokerError>, Seq<SessionView<MAX_TOPIC_NAME_LENGTH, MAX_PAYLOAD_SIZE>>) {
        if v.len() >= MAX_SESSIONS {
            (Err(BrokerError::MaxSessionsReached { current: v.len() as usize, max: MAX_SESSIONS }), v)
        } else if session_index(v, session_id) is Some {
            (Err(BrokerError::SessionAlreadyExists { session_id }), v)
        } else if v.len() >= Self::session_limit() {
            (Err(BrokerError::BufferFull), v)
        } else {
            (Ok(()), v.push(new_session_view(session_id, keep_alive_secs, current_time)))
        }
    }

    /// Registering a session succeeds only for an identifier not yet registered; the new
    /// session is then found under its identifier after all the others, which stay as they
    /// were, with the keep-alive it was registered with, empty queues, and no expiry until
    /// more than one and a half keep-alive intervals after the registration time.
    pub proof fn lemma_register_fresh(
        v: Seq<SessionView<MAX_TOPIC_NAME_LENGTH, MAX_PAYLOAD_SIZE>>,
        session_id: u128,
        keep_alive_secs: u16,
        current_time: u128,
    )
        requires
            ids_unique(v),
        ensures
            ({
                let (r, w) = Self::after_register(v, session_id, keep_alive_secs, current_time);
                &&& r is Ok ==> session_index(v, session_id) is None
                &&& r is Err ==> w == v
                &&& r is Ok ==> {
                    &&& ids_unique(w)
                    &&& w.len() == v.len() + 1
                    &&& w.take(v.len() as int) == v
                    &&& session_index(w, session_id) == Some(v.len() as int)
                    &&& w[v.len() as int].keep_alive_secs == keep_alive_secs
                    &&& w[v.len() as int].rx_queue.len() == 0
                    &&& w[v.len() as int].tx_queue.len() == 0
                    &&& forall|later: u128|
                        #![trigger session_expired(w[v.len() as int], later)]
                        session_expired(w[v.len() as int], later) <==> later - current_time
                            > keep_alive_secs as int * EXPIRY_NANOS_PER_KEEP_ALIVE_SEC
                }
            }),
    {
        let (r, w) = Self::after_register(v, session_id, keep_alive_secs, current_time);
        lemma_new_session_fresh::<MAX_TOPIC_NAME_LENGTH, MAX_PAYLOAD_SIZE>(session_id, keep_alive_secs, current_time);
        if r is Ok {
            let n = v.len() as int;
            assert(w.take(n) =~= v);
            assert forall|i: int, j: int| 0 <= i < w.len() && 0 <= j < w.len() && i != j implies #[trigger] w[i].session_id
                != #[trigger] w[j].session_id by {
                if i < n && j < n {
                    assert(w[i] == v[i] && w[j] == v[j]);
                } else if i < n {
                    assert(w[i] == v[i]);
                } else {
                    assert(w[j] == v[j]);
                }
            }
            lemma_index_at(w, n);
        }
    }

    /// An empty registry.
    pub fn new() -> (r: Self)
        ensures
            r@ == Seq::<SessionView<MAX_TOPIC_NAME_LENGTH, MAX_PAYLOAD_SIZE>>::empty(),
    {
        let r = SessionRegistry { sessions: HeaplessVec::new() };
        assert(r@ =~= Seq::<SessionView<MAX_TOPIC_NAME_LENGTH, MAX_PAYLOAD_SIZE>>::empty());
        r
    }

    /// No two sessions share an identifier.
    pub fn well_formed(&self) -> (r: bool)
        ensures
            r,
            ids_unique(self@),
            self@.len() <= Self::session_limit(),
    {
        proof {
            use_type_invariant(self);
        }
        let _n = self.sessions.len();
        true
    }

    fn find(&self, session_id: u128) -> (r: Option<usize>)
        ensures
            r is None ==> session_index(self@, session_id) is None,
            r matches Some(i) ==> session_index(self@, session_id) == Some(i as int) && i
                < self@.len(),
    {
        proof {
            use_type_invariant(self);
        }
        let n = self.sessions.len();
        let mut i: usize = 0;
        while i < n
            invariant
                n == self@.len(),
                self@.len() == self.sessions@.len(),
                forall|k: int| 0 <= k < self.sessions@.len() ==> #[trigger] self.sessions@[k] is Some,
                ids_unique(self@),
                i <= n,
                forall|j: int| 0 <= j < i ==> self@[j].session_id != session_id,
            decreases n - i,
        {
            let s = self.sessions.get_copy(i);
            assert(self.sessions@[i as int] is Some);
            match s {
                Some(sess) => {
                    assert(self@[i as int] == sess@);
                    if sess.session_id == session_id {
                        proof {
                            lemma_index_at(self@, i as int);
                        }
                        return Some(i);
                    }
                },
                None => {},
            }
            i = i + 1;
        }
        None
    }

    fn get_session(&self, i: usize) -> (r: Session<MAX_TOPIC_NAME_LENGTH, MAX_PAYLOAD_SIZE, QUEUE_SIZE>)
        requires
            i < self@.len(),
        ensures
            r@ == self@[i as int],
    {
        proof {
            use_type_invariant(self);
        }
        let s = self.sessions.get_copy(i);
        assert(self.sessions@[i as int] is Some);
        match s {
            Some(sess) => sess,
            None => Session::new(0, 0, 0),
        }
    }

    fn put_session(&mut self, i: usize, sess: Session<MAX_TOPIC_NAME_LENGTH, MAX_PAYLOAD_SIZE, QUEUE_SIZE>)
        requires
            i < old(self)@.len(),
            sess.session_id == old(self)@[i as int].session_id,
        ensures
            final(self)@ == old(self)@.update(i as int, sess@),
    {
        proof {
            use_type_invariant(&*self);
            let t = self.sessions@;
            let v = self@;
            assert(sessions_view(t.update(i as int, Some(sess))) =~= v.update(i as int, sess@));
            let w = v.update(i as int, sess@);
            assert forall|a: int, b: int| 0 <= a < w.len() && 0 <= b < w.len() && a != b implies #[trigger] w[a].session_id
                != #[trigger] w[b].session_id by {
                assert(w[a].session_id == v[a].session_id && w[b].session_id == v[b].session_id);
            }
            assert forall|k: int| 0 <= k < t.update(i as int, Some(sess)).len() implies #[trigger] t.update(
                i as int,
                Some(sess),
            )[k] is Some by {
                if k != i {
                    assert(t[k] is Some);
                }
            }
        }
        self.sessions.set(i, Some(sess));
    }

    /// The identifiers of all sessions, in order, in the first slots.
    pub fn get_all_sessions(&self) -> (r: [Option<u128>; MAX_SESSIONS])
        ensures
            r@ == padded(
                ids_where(self@, |s: SessionView<MAX_TOPIC_NAME_LENGTH, MAX_PAYLOAD_SIZE>| true),
                MAX_SESSIONS as nat,
            ),
    {
        self.collect_ids(0, 0)
    }

    /// The identifiers of the sessions whose keep-alive has run out at `current_time`.
    pub fn get_expired_sessions(&self, current_time: u128) -> (r: [Option<u128>; MAX_SESSIONS])
        ensures
            r@ == padded(
                ids_where(
                    self@,
                    |s: SessionView<MAX_TOPIC_NAME_LENGTH, MAX_PAYLOAD_SIZE>|
                        session_expired(s, current_time),
                ),
                MAX_SESSIONS as nat,
            ),
    {
        self.collect_ids(1, current_time)
    }

    /// The identifiers of the disconnected sessions.
    pub fn get_disconnected_sessions(&self) -> (r: [Option<u128>; MAX_SESSIONS])
        ensures
            r@ == padded(
                ids_where(
                    self@,
                    |s: SessionView<MAX_TOPIC_NAME_LENGTH, MAX_PAYLOAD_SIZE>|
                        s.state == SessionState::Disconnected,
                ),
                MAX_SESSIONS as nat,
            ),
    {
        self.collect_ids(2, 0)
    }

    /// The identifiers of the sessions chosen by `which`: all of them (0), the expired ones
    /// at `current_time` (1), or the disconnected ones (2).
    fn collect_ids(&self, which: u8, current_time: u128) -> (r: [Option<u128>; MAX_SESSIONS])
        requires
            which <= 2,
        ensures
            r@ == padded(
                ids_where(self@, Self::selector(which, current_time)),
                MAX_SESSIONS as nat,
            ),
    {
        proof {
            use_type_invariant(self);
        }
        let ghost keep = Self::selector(which, current_time);
        let mut out: [Option<u128>; MAX_SESSIONS] = [None; MAX_SESSIONS];
        let mut count: usize = 0;
        let n = self.sessions.len();
        let mut i: usize = 0;
        while i < n
            invariant
                n == self@.len(),
                self@.len() == self.sessions@.len(),
                n <= MAX_SESSIONS,
                i <= n,
                keep == Self::selector(which, current_time),
                which <= 2,
                count == ids_where(self@.take(i as int), keep).len(),
                count <= i,
                out@ == padded(ids_where(self@.take(i as int), keep), MAX_SESSIONS as nat),
            decreases n - i,
        {
            let sess = self.get_session(i);
            assert(self@.take(i + 1).drop_last() =~= self@.take(i as int));
            assert(self@.take(i + 1).last() == sess@);
            let chosen = if which == 0 {
                true
            } else if which == 1 {
                sess.is_expired(current_time)
            } else {
                sess.state == SessionState::Disconnected
            };
            assert(chosen == keep(sess@));
            if chosen {
                out[count] = Some(sess.session_id);
                count = count + 1;
                assert(out@ =~= padded(ids_where(self@.take(i + 1), keep), MAX_SESSIONS as nat));
            } else {
                assert(out@ =~= padded(ids_where(self@.take(i + 1), keep), MAX_SESSIONS as nat));
            }
            i = i + 1;
        }
        assert(self@.take(n as int) =~= self@);
        out
    }

    /// The test `collect_ids` applies for each value of `which`.
    pub open spec fn selector(which: u8, current_time: u128) -> spec_fn(
        SessionView<MAX_TOPIC_NAME_LENGTH, MAX_PAYLOAD_SIZE>,
    ) -> bool {
        if which == 0 {
            |s: SessionView<MAX_TOPIC_NAME_LENGTH, MAX_PAYLOAD_SIZE>| true
        } else if which == 1 {
            |s: SessionView<MAX_TOPIC_NAME_LENGTH, MAX_PAYLOAD_SIZE>| session_expired(s, current_time)
        } else {
            |s: SessionView<MAX_TOPIC_NAME_LENGTH, MAX_PAYLOAD_SIZE>|
                s.state == SessionState::Disconnected
        }
    }

    fn set_state(&mut self, session_id: u128, state: SessionState) -> (r: Result<(), BrokerError>)
        ensures
            r == update_session(
                old(self)@,
                session_id,
                |s: SessionView<MAX_TOPIC_NAME_LENGTH, MAX_PAYLOAD_SIZE>| SessionView { state, ..s },
            ).0,
            final(self)@ == update_session(
                old(self)@,
                session_id,
                |s: SessionView<MAX_TOPIC_NAME_LENGTH, MAX_PAYLOAD_SIZE>| SessionView { state, ..s },
            ).1,
    {
        match self.find(session_id) {
            Some(i) => {
                let mut sess = self.get_session(i);
                sess.state = state;
                self.put_session(i, sess);
                Ok(())
            },
            None => Err(BrokerError::SessionNotFound { session_id }),
        }
    }

    /// Marks a session connected.
    pub fn mark_connected(&mut self, session_id: u128) -> (r: Result<(), BrokerError>)
        ensures
            r == update_session(
                old(self)@,
                session_id,
                |s: SessionView<MAX_TOPIC_NAME_LENGTH, MAX_PAYLOAD_SIZE>|
                    SessionView { state: SessionState::Connected, ..s },
            ).0,
            final(self)@ == update_session(
                old(self)@,
                session_id,
                |s: SessionView<MAX_TOPIC_NAME_LENGTH, MAX_PAYLOAD_SIZE>|
                    SessionView { state: SessionState::Connected, ..s },
            ).1,
    {
        self.set_state(session_id, SessionState::Connected)
    }

    /// Marks a session disconnected.
    pub fn mark_disconnected(&mut self, session_id: u128) -> (r: Result<(), BrokerError>)
        ensures
            r == update_session(
                old(self)@,
                session_id,
                |s: SessionView<MAX_TOPIC_NAME_LENGTH, MAX_PAYLOAD_SIZE>|
                    SessionView { state: SessionState::Disconnected, ..s },
            ).0,
            final(self)@ == update_session(
                old(self)@,
                session_id,
                |s: SessionView<MAX_TOPIC_NAME_LENGTH, MAX_PAYLOAD_SIZE>|
                    SessionView { state: SessionState::Disconnected, ..s },
            ).1,
    {
        self.set_state(session_id, SessionState::Disconnected)
    }

    /// Registers a new session; fails when the registry is full or the identifier is taken.
    pub fn register_new_session(&mut self, session_id: u128, keep_alive_secs: u16, current_time: u128) -> (r: Result<
        (),
        BrokerError,
    >)
        ensures
            r == Self::after_register(old(self)@, session_id, keep_alive_secs, current_time).0,
            final(self)@ == Self::after_register(old(self)@, session_id, keep_alive_secs, current_time).1,
    {
        proof {
            use_type_invariant(&*self);
        }
        let current = self.sessions.len();
        if current >= MAX_SESSIONS {
            return Err(BrokerError::MaxSessionsReached { current, max: MAX_SESSIONS });
        }
        if self.find(session_id).is_some() {
            return Err(BrokerError::SessionAlreadyExists { session_id });
        }
        let session = Session::new(session_id, keep_alive_secs, current_time);
        proof {
            let t = self.sessions@;
            let v = self@;
            assert(sessions_view(t.push(Some(session))) =~= v.push(session@));
            let w = v.push(session@);
            assert forall|a: int, b: int| 0 <= a < w.len() && 0 <= b < w.len() && a != b implies #[trigger] w[a].session_id
                != #[trigger] w[b].session_id by {
                if a < v.len() && b < v.len() {
                    assert(w[a] == v[a] && w[b] == v[b]);
                } else if a < v.len() {
                    assert(w[a] == v[a]);
                    assert(v[a].session_id != session_id);
                } else {
                    assert(w[b] == v[b]);
                    assert(v[b].session_id != session_id);
                }
            }
            assert forall|k: int| 0 <= k < t.push(Some(session)).len() implies #[trigger] t.push(
                Some(session),
            )[k] is Some by {
                if k < t.len() {
                    assert(t[k] is Some);
                }
            }
        }
        match self.sessions.push(Some(session)) {
            Ok(()) => Ok(()),
            Err(_) => Err(BrokerError::BufferFull),
        }
    }

    /// Removes a session; true when it was there.
    pub fn remove_session(&mut self, session_id: u128) -> (r: bool)
        ensures
            r == session_index(old(self)@, session_id) is Some,
            session_index(old(self)@, session_id) matches Some(i) ==> final(self)@ == old(self)@.remove(i),
            session_index(old(self)@, session_id) is None ==> final(self)@ == old(self)@,
    {
        proof {
            use_type_invariant(&*self);
        }
        match self.find(session_id) {
            Some(idx) => {
                proof {
                    let t = self.sessions@;
                    let v = self@;
                    assert(sessions_view(without(t, idx as int)) =~= v.remove(idx as int));
                    let w = v.remove(idx as int);
                    assert forall|a: int, b: int| 0 <= a < w.len() && 0 <= b < w.len() && a != b implies #[trigger] w[a].session_id
                        != #[trigger] w[b].session_id by {
                        let oa = if a < idx { a } else { a + 1 };
                        let ob = if b < idx { b } else { b + 1 };
                        assert(w[a] == v[oa] && w[b] == v[ob]);
                    }
                    assert forall|k: int| 0 <= k < without(t, idx as int).len() implies #[trigger] without(
                        t,
                        idx as int,
                    )[k] is Some by {
                        let ok = if k < idx { k } else { k + 1 };
                        assert(without(t, idx as int)[k] == t[ok]);
                    }
                }
                self.sessions.remove(idx);
                true
            },
            None => false,
        }
    }

    /// Records activity of a session at `current_time`.
    pub fn update_session_activity(&mut self, session_id: u128, current_time: u128) -> (r: Result<
        (),
        BrokerError,
    >)
        ensures
            r == update_session(
                old(self)@,
                session_id,
                |s: SessionView<MAX_TOPIC_NAME_LENGTH, MAX_PAYLOAD_SIZE>|
                    SessionView { last_activity: current_time, ..s },
            ).0,
            final(self)@ == update_session(
                old(self)@,
                session_id,
                |s: SessionView<MAX_TOPIC_NAME_LENGTH, MAX_PAYLOAD_SIZE>|
                    SessionView { last_activity: current_time, ..s },
            ).1,
    {
        match self.find(session_id) {
            Some(i) => {
                let mut sess = self.get_session(i);
                sess.update_activity(current_time);
                self.put_session(i, sess);
                Ok(())
            },
            None => Err(BrokerError::SessionNotFound { session_id }),
        }
    }

    /// Sets the client identifier of a session.
    pub fn update_client_id(&mut self, session_id: u128, client_id: ClientId) -> (r: Result<
        (),
        BrokerError,
    >)
        ensures
            r == update_session(
                old(self)@,
                session_id,
                |s: SessionView<MAX_TOPIC_NAME_LENGTH, MAX_PAYLOAD_SIZE>|
                    SessionView { client_id: Some(client_id), ..s },
            ).0,
            final(self)@ == update_session(
                old(self)@,
                session_id,
                |s: SessionView<MAX_TOPIC_NAME_LENGTH, MAX_PAYLOAD_SIZE>|
                    SessionView { client_id: Some(client_id), ..s },
            ).1,
    {
        match self.find(session_id) {
            Some(i) => {
                let mut sess = self.get_session(i);
                sess.client_id = Some(client_id);
                self.put_session(i, sess);
                Ok(())
            },
            None => Err(BrokerError::SessionNotFound { session_id }),
        }
    }

    /// Sets the keep-alive interval of a session.
    pub fn update_keep_alive(&mut self, session_id: u128, keep_alive_secs: u16) -> (r: Result<
        (),
        BrokerError,
    >)
        ensures
            r == update_session(
                old(self)@,
                session_id,
                |s: SessionView<MAX_TOPIC_NAME_LENGTH, MAX_PAYLOAD_SIZE>|
                    SessionView { keep_alive_secs, ..s },
            ).0,
            final(self)@ == update_session(
                old(self)@,
                session_id,
                |s: SessionView<MAX_TOPIC_NAME_LENGTH, MAX_PAYLOAD_SIZE>|
                    SessionView { keep_alive_secs, ..s },
            ).1,
    {
        match self.find(session_id) {
            Some(i) => {
                let mut sess = self.get_session(i);
                sess.keep_alive_secs = keep_alive_secs;
                self.put_session(i, sess);
                Ok(())
            },
            None => Err(BrokerError::SessionNotFound { session_id }),
        }
    }

    /// Queues a packet received from the client of a session.
    pub fn queue_rx_packet(&mut self, session_id: u128, packet: Packet<MAX_TOPIC_NAME_LENGTH, MAX_PAYLOAD_SIZE>) -> (r: Result<
        (),
        BrokerError,
    >)
        ensures
            r == queue_packet(old(self)@, session_id, packet, true, Self::queue_limit(), QUEUE_SIZE).0,
            final(self)@ == queue_packet(old(self)@, session_id, packet, true, Self::queue_limit(), QUEUE_SIZE).1,
    {
        match self.find(session_id) {
            Some(i) => {
                let mut sess = self.get_session(i);
                match sess.queue_rx_packet(packet) {
                    Ok(()) => {
                        self.put_session(i, sess);
                        Ok(())
                    },
                    Err(_) => Err(BrokerError::SessionQueueFull { session_id, queue_size: QUEUE_SIZE }),
                }
            },
            None => Err(BrokerError::SessionNotFound { session_id }),
        }
    }

    /// Queues a packet to send to the client of a session.
    pub fn queue_tx_packet(&mut self, session_id: u128, packet: Packet<MAX_TOPIC_NAME_LENGTH, MAX_PAYLOAD_SIZE>) -> (r: Result<
        (),
        BrokerError,
    >)
        ensures
            r == queue_packet(old(self)@, session_id, packet, false, Self::queue_limit(), QUEUE_SIZE).0,
            final(self)@ == queue_packet(old(self)@, session_id, packet, false, Self::queue_limit(), QUEUE_SIZE).1,
    {
        match self.find(session_id) {
            Some(i) => {
                let mut sess = self.get_session(i);
                match sess.queue_tx_packet(packet) {
                    Ok(()) => {
                        self.put_session(i, sess);
                        Ok(())
                    },
                    Err(_) => Err(BrokerError::SessionQueueFull { session_id, queue_size: QUEUE_SIZE }),
                }
            },
            None => Err(BrokerError::SessionNotFound { session_id }),
        }
    }

    /// Takes the oldest packet received from the client of a session.
    pub fn dequeue_rx_packet(&mut self, session_id: u128) -> (r: Result<
        Option<Packet<MAX_TOPIC_NAME_LENGTH, MAX_PAYLOAD_SIZE>>,
        BrokerError,
    >)
        ensures
            r == dequeue_packet(old(self)@, session_id, true).0,
            final(self)@ == dequeue_packet(old(self)@, session_id, true).1,
    {
        match self.find(session_id) {
            Some(i) => {
                let mut sess = self.get_session(i);
                if sess.rx_queue.len() == 0 {
                    return Ok(None);
                }
                let p = sess.dequeue_rx_packet();
                self.put_session(i, sess);
                Ok(p)
            },
            None => Err(BrokerError::SessionNotFound { session_id }),
        }
    }

    /// Takes the oldest packet to send to the client of a session.
    pub fn dequeue_tx_packet(&mut self, session_id: u128) -> (r: Result<
        Option<Packet<MAX_TOPIC_NAME_LENGTH, MAX_PAYLOAD_SIZE>>,
        BrokerError,
    >)
        ensures
            r == dequeue_packet(old(self)@, session_id, false).0,
            final(self)@ == dequeue_packet(old(self)@, session_id, false).1,
    {
        match self.find(session_id) {
            Some(i) => {
                let mut sess = self.get_session(i);
                if sess.tx_queue.len() == 0 {
                    return Ok(None);
                }
                let p = sess.dequeue_tx_packet();
                self.put_session(i, sess);
                Ok(p)
            },
            None => Err(BrokerError::SessionNotFound { session_id }),
        }
    }

    /// Whether a session has packets waiting to be sent.
    pub fn has_pending_tx_packets(&self, session_id: u128) -> (r: bool)
        ensures
            r == (session_index(self@, session_id) matches Some(i) && self@[i].tx_queue.len() > 0),
    {
        match self.find(session_id) {
            Some(i) => {
                let sess = self.get_session(i);
                sess.tx_queue.len() > 0
            },
            None => false,
        }
    }
}

impl<
    const MAX_TOPIC_NAME_LENGTH: usize,
    const MAX_PAYLOAD_SIZE: usize,
    const QUEUE_SIZE: usize,
    const MAX_SESSIONS: usize,
    const MAX_TOPICS: usize,
    const MAX_SUBSCRIBERS_PER_TOPIC: usize,
> Default for SessionRegistry<
    MAX_TOPIC_NAME_LENGTH,
    MAX_PAYLOAD_SIZE,
    QUEUE_SIZE,
    MAX_SESSIONS,
    MAX_TOPICS,
    MAX_SUBSCRIBERS_PER_TOPIC,
> {
    fn default() -> (r: Self)
        ensures
            r@ == Seq::<SessionView<MAX_TOPIC_NAME_LENGTH, MAX_PAYLOAD_SIZE>>::empty(),
    {
        Self::new()
    }
}

} // verus!
