//! The broker: sessions, subscriptions, and the handling of the packets clients send.
use vstd::prelude::*;
use crate::error::BrokerError;
use crate::protocol::heapless::HeaplessVec;
use crate::protocol::packets::{
    ConnAckPacket, ConnectPacket, Packet, PingRespPacket, PubAckPacket, PublishPacket, SubAckPacket,
    SubscribePacket,
};
use crate::protocol::packets::connack::ConnectReturnCode;
use crate::protocol::qos::QoS;
use crate::session::{
    dequeue_packet, ids_unique, ids_where, lemma_index_at, padded, queue_packet, session_index,
    update_session, SessionRegistry, SessionState, SessionView,
};
use crate::topics::{entry_index, registry_wf, subscribers_for, text_bytes, EntryView, TopicRegistry};

verus! {

/// The state of a broker, as plain values.
pub ghost struct BrokerView<const MAX_TOPIC_NAME_LENGTH: usize, const MAX_PAYLOAD_SIZE: usize> {
    pub topics: Seq<EntryView>,
    pub sessions: Seq<SessionView<MAX_TOPIC_NAME_LENGTH, MAX_PAYLOAD_SIZE>>,
}

/// The receive queue of session `session_id`; empty when there is no such session.
pub open spec fn rx_of<const MAX_TOPIC_NAME_LENGTH: usize, const MAX_PAYLOAD_SIZE: usize>(
    v: Seq<SessionView<MAX_TOPIC_NAME_LENGTH, MAX_PAYLOAD_SIZE>>,
    session_id: u128,
) -> Seq<Option<Packet<MAX_TOPIC_NAME_LENGTH, MAX_PAYLOAD_SIZE>>> {
    match session_index(v, session_id) {
        Some(i) => v[i].rx_queue,
        None => Seq::empty(),
    }
}

/// Both sequences hold the same sessions, in the same order, with the same receive queues.
pub open spec fn same_rx<const MAX_TOPIC_NAME_LENGTH: usize, const MAX_PAYLOAD_SIZE: usize>(
    a: Seq<SessionView<MAX_TOPIC_NAME_LENGTH, MAX_PAYLOAD_SIZE>>,
    b: Seq<SessionView<MAX_TOPIC_NAME_LENGTH, MAX_PAYLOAD_SIZE>>,
) -> bool {
    &&& a.len() == b.len()
    &&& forall|i: int|
        #![trigger a[i]]
        #![trigger b[i]]
        0 <= i < a.len() ==> a[i].session_id == b[i].session_id && a[i].rx_queue == b[i].rx_queue
}

/// The CONNACK the broker answers a CONNECT with.
pub open spec fn connack_accepted() -> ConnAckPacket {
    ConnAckPacket { session_present: false, return_code: ConnectReturnCode::Accepted }
}

/// Both sequences hold the same sessions in the same order.
pub open spec fn same_ids<const MAX_TOPIC_NAME_LENGTH: usize, const MAX_PAYLOAD_SIZE: usize>(
    a: Seq<SessionView<MAX_TOPIC_NAME_LENGTH, MAX_PAYLOAD_SIZE>>,
    b: Seq<SessionView<MAX_TOPIC_NAME_LENGTH, MAX_PAYLOAD_SIZE>>,
) -> bool {
    &&& a.len() == b.len()
    &&& forall|i: int|
        #![trigger a[i]]
        #![trigger b[i]]
        0 <= i < a.len() ==> a[i].session_id == b[i].session_id
}

proof fn lemma_same_ids_index<const MAX_TOPIC_NAME_LENGTH: usize, const MAX_PAYLOAD_SIZE: usize>(
    a: Seq<SessionView<MAX_TOPIC_NAME_LENGTH, MAX_PAYLOAD_SIZE>>,
    b: Seq<SessionView<MAX_TOPIC_NAME_LENGTH, MAX_PAYLOAD_SIZE>>,
    session_id: u128,
)
    requires
        same_ids(a, b),
        ids_unique(a),
    ensures
        ids_unique(b),
        session_index(a, session_id) == session_index(b, session_id),
{
    assert forall|i: int, j: int| 0 <= i < b.len() && 0 <= j < b.len() && i != j implies #[trigger] b[i].session_id
        != #[trigger] b[j].session_id by {
        assert(a[i].session_id == b[i].session_id && a[j].session_id == b[j].session_id);
    }
    match session_index(a, session_id) {
        Some(i) => {
            lemma_index_at(a, i);
            lemma_index_at(b, i);
        },
        None => {
            if exists|i: int| 0 <= i < b.len() && b[i].session_id == session_id {
                let i = choose|i: int| 0 <= i < b.len() && b[i].session_id == session_id;
                assert(a[i].session_id == session_id);
            }
        },
    }
}

proof fn lemma_same_rx_same_ids<const MAX_TOPIC_NAME_LENGTH: usize, const MAX_PAYLOAD_SIZE: usize>(
    a: Seq<SessionView<MAX_TOPIC_NAME_LENGTH, MAX_PAYLOAD_SIZE>>,
    b: Seq<SessionView<MAX_TOPIC_NAME_LENGTH, MAX_PAYLOAD_SIZE>>,
)
    requires
        same_rx(a, b),
    ensures
        same_ids(a, b),
{
    assert forall|i: int| 0 <= i < a.len() implies #[trigger] a[i].session_id == b[i].session_id by {
        assert(a[i].session_id == b[i].session_id && a[i].rx_queue == b[i].rx_queue);
    }
}

proof fn lemma_same_rx_trans<const MAX_TOPIC_NAME_LENGTH: usize, const MAX_PAYLOAD_SIZE: usize>(
    a: Seq<SessionView<MAX_TOPIC_NAME_LENGTH, MAX_PAYLOAD_SIZE>>,
    b: Seq<SessionView<MAX_TOPIC_NAME_LENGTH, MAX_PAYLOAD_SIZE>>,
    c: Seq<SessionView<MAX_TOPIC_NAME_LENGTH, MAX_PAYLOAD_SIZE>>,
)
    requires
        same_rx(a, b),
        same_rx(b, c),
    ensures
        same_rx(a, c),
{
    assert forall|i: int| 0 <= i < a.len() implies #[trigger] a[i].session_id == c[i].session_id
        && a[i].rx_queue == c[i].rx_queue by {
        assert(a[i].session_id == b[i].session_id && a[i].rx_queue == b[i].rx_queue);
        assert(b[i].session_id == c[i].session_id && b[i].rx_queue == c[i].rx_queue);
    }
}

proof fn lemma_same_rx_of<const MAX_TOPIC_NAME_LENGTH: usize, const MAX_PAYLOAD_SIZE: usize>(
    a: Seq<SessionView<MAX_TOPIC_NAME_LENGTH, MAX_PAYLOAD_SIZE>>,
    b: Seq<SessionView<MAX_TOPIC_NAME_LENGTH, MAX_PAYLOAD_SIZE>>,
    session_id: u128,
)
    requires
        same_rx(a, b),
        ids_unique(a),
    ensures
        ids_unique(b),
        rx_of(a, session_id) == rx_of(b, session_id),
{
    lemma_same_rx_same_ids(a, b);
    lemma_same_ids_index(a, b, session_id);
    if let Some(i) = session_index(a, session_id) {
        assert(a[i].session_id == b[i].session_id && a[i].rx_queue == b[i].rx_queue);
    }
}

proof fn lemma_update_keeps_rx<const MAX_TOPIC_NAME_LENGTH: usize, const MAX_PAYLOAD_SIZE: usize>(
    v: Seq<SessionView<MAX_TOPIC_NAME_LENGTH, MAX_PAYLOAD_SIZE>>,
    session_id: u128,
    f: spec_fn(SessionView<MAX_TOPIC_NAME_LENGTH, MAX_PAYLOAD_SIZE>) -> SessionView<
        MAX_TOPIC_NAME_LENGTH,
        MAX_PAYLOAD_SIZE,
    >,
)
    requires
        forall|s: SessionView<MAX_TOPIC_NAME_LENGTH, MAX_PAYLOAD_SIZE>|
            #[trigger] f(s).session_id == s.session_id && f(s).rx_queue == s.rx_queue,
    ensures
        same_rx(v, update_session(v, session_id, f).1),
{
    let w = update_session(v, session_id, f).1;
    if let Some(i) = session_index(v, session_id) {
        assert(f(v[i]).session_id == v[i].session_id);
        assert forall|k: int| 0 <= k < v.len() implies #[trigger] v[k].session_id == w[k].session_id
            && v[k].rx_queue == w[k].rx_queue by {
            if k == i {
                assert(w[k] == f(v[i]));
            }
        }
    }
}

proof fn lemma_dequeue_rx<const MAX_TOPIC_NAME_LENGTH: usize, const MAX_PAYLOAD_SIZE: usize>(
    v: Seq<SessionView<MAX_TOPIC_NAME_LENGTH, MAX_PAYLOAD_SIZE>>,
    session_id: u128,
)
    requires
        ids_unique(v),
    ensures
        ({
            let (r, w) = dequeue_packet(v, session_id, true);
            &&& ids_unique(w)
            &&& same_ids(v, w)
            &&& r is Ok ==> session_index(v, session_id) is Some
            &&& r matches Ok(x) ==> (rx_of(v, session_id).len() == 0 && w == v) || (rx_of(
                v,
                session_id,
            ).len() > 0 && x == rx_of(v, session_id)[0] && rx_of(w, session_id) == rx_of(
                v,
                session_id,
            ).drop_first())
            &&& r is Err ==> w == v && session_index(v, session_id) is None
        }),
{
    let (r, w) = dequeue_packet(v, session_id, true);
    if let Some(i) = session_index(v, session_id) {
        assert forall|k: int| 0 <= k < v.len() implies v[k].session_id == w[k].session_id by {
        }
        lemma_same_ids_index(v, w, session_id);
    } else {
        assert forall|k: int| 0 <= k < v.len() implies v[k].session_id == w[k].session_id by {
        }
    }
}

proof fn lemma_ids_where_len<const MAX_TOPIC_NAME_LENGTH: usize, const MAX_PAYLOAD_SIZE: usize>(
    v: Seq<SessionView<MAX_TOPIC_NAME_LENGTH, MAX_PAYLOAD_SIZE>>,
    keep: spec_fn(SessionView<MAX_TOPIC_NAME_LENGTH, MAX_PAYLOAD_SIZE>) -> bool,
)
    ensures
        ids_where(v, keep).len() <= v.len(),
    decreases v.len(),
{
    if v.len() > 0 {
        lemma_ids_where_len(v.drop_last(), keep);
    }
}

proof fn lemma_ids_where_all<const MAX_TOPIC_NAME_LENGTH: usize, const MAX_PAYLOAD_SIZE: usize>(
    v: Seq<SessionView<MAX_TOPIC_NAME_LENGTH, MAX_PAYLOAD_SIZE>>,
)
    ensures
        ids_where(v, |s: SessionView<MAX_TOPIC_NAME_LENGTH, MAX_PAYLOAD_SIZE>| true).len() == v.len(),
        forall|j: int|
            #![trigger v[j]]
            0 <= j < v.len() ==> ids_where(
                v,
                |s: SessionView<MAX_TOPIC_NAME_LENGTH, MAX_PAYLOAD_SIZE>| true,
            )[j] == v[j].session_id,
    decreases v.len(),
{
    if v.len() > 0 {
        lemma_ids_where_all(v.drop_last());
        let all = ids_where(v, |s: SessionView<MAX_TOPIC_NAME_LENGTH, MAX_PAYLOAD_SIZE>| true);
        let prev = ids_where(v.drop_last(), |s: SessionView<MAX_TOPIC_NAME_LENGTH, MAX_PAYLOAD_SIZE>| true);
        assert(all == prev.push(v.last().session_id));
        assert forall|j: int| 0 <= j < v.len() implies all[j] == #[trigger] v[j].session_id by {
            if j < v.len() - 1 {
                assert(all[j] == prev[j]);
                assert(v.drop_last()[j] == v[j]);
            }
        }
    }
}

/// The send queue of session `session_id`; empty when there is no such session.
pub open spec fn tx_of<const MAX_TOPIC_NAME_LENGTH: usize, const MAX_PAYLOAD_SIZE: usize>(
    v: Seq<SessionView<MAX_TOPIC_NAME_LENGTH, MAX_PAYLOAD_SIZE>>,
    session_id: u128,
) -> Seq<Option<Packet<MAX_TOPIC_NAME_LENGTH, MAX_PAYLOAD_SIZE>>> {
    match session_index(v, session_id) {
        Some(i) => v[i].tx_queue,
        None => Seq::empty(),
    }
}

/// Changing a session in a way that keeps its identifier and send queue keeps every send
/// queue.
proof fn lemma_update_keeps_tx<const MAX_TOPIC_NAME_LENGTH: usize, const MAX_PAYLOAD_SIZE: usize>(
    v: Seq<SessionView<MAX_TOPIC_NAME_LENGTH, MAX_PAYLOAD_SIZE>>,
    session_id: u128,
    f: spec_fn(SessionView<MAX_TOPIC_NAME_LENGTH, MAX_PAYLOAD_SIZE>) -> SessionView<
        MAX_TOPIC_NAME_LENGTH,
        MAX_PAYLOAD_SIZE,
    >,
)
    requires
        ids_unique(v),
        forall|s: SessionView<MAX_TOPIC_NAME_LENGTH, MAX_PAYLOAD_SIZE>|
            #[trigger] f(s).session_id == s.session_id && f(s).tx_queue == s.tx_queue,
    ensures
        ids_unique(update_session(v, session_id, f).1),
        forall|x: u128| #[trigger] tx_of(update_session(v, session_id, f).1, x) == tx_of(v, x),
{
    let w = update_session(v, session_id, f).1;
    if let Some(i) = session_index(v, session_id) {
        assert(f(v[i]).session_id == v[i].session_id);
        assert forall|k: int| 0 <= k < v.len() implies #[trigger] v[k].session_id == w[k].session_id by {
            if k == i {
                assert(w[k] == f(v[i]));
            }
        }
    }
    assert(same_ids(v, w));
    lemma_same_ids_index(v, w, session_id);
    assert forall|x: u128| #[trigger] tx_of(w, x) == tx_of(v, x) by {
        lemma_same_ids_index(v, w, x);
        if let Some(j) = session_index(v, x) {
            if let Some(i) = session_index(v, session_id) {
                if j == i {
                    assert(w[j] == f(v[i]));
                }
            }
        }
    }
}

/// The broker once a packet received from session `session_id` at `now` is recorded: its
/// activity time updated, then the packet queued for handling.
pub open spec fn broker_received<const MAX_TOPIC_NAME_LENGTH: usize, const MAX_PAYLOAD_SIZE: usize>(
    b: BrokerView<MAX_TOPIC_NAME_LENGTH, MAX_PAYLOAD_SIZE>,
    session_id: u128,
    packet: Packet<MAX_TOPIC_NAME_LENGTH, MAX_PAYLOAD_SIZE>,
    now: u128,
    queue_limit: nat,
    queue_size: usize,
) -> (Result<(), BrokerError>, BrokerView<MAX_TOPIC_NAME_LENGTH, MAX_PAYLOAD_SIZE>) {
    let (r1, s1) = update_session(
        b.sessions,
        session_id,
        |s: SessionView<MAX_TOPIC_NAME_LENGTH, MAX_PAYLOAD_SIZE>| SessionView { last_activity: now, ..s },
    );
    if r1 is Err {
        (r1, BrokerView { sessions: s1, ..b })
    } else {
        let (r2, s2) = queue_packet(s1, session_id, packet, true, queue_limit, queue_size);
        (r2, BrokerView { sessions: s2, ..b })
    }
}

/// Changing one session by `f`, which keeps identifiers, keeps every identifier where it
/// was, and the changed session is `f` of the old one.
proof fn lemma_update_at<const MAX_TOPIC_NAME_LENGTH: usize, const MAX_PAYLOAD_SIZE: usize>(
    v: Seq<SessionView<MAX_TOPIC_NAME_LENGTH, MAX_PAYLOAD_SIZE>>,
    session_id: u128,
    f: spec_fn(SessionView<MAX_TOPIC_NAME_LENGTH, MAX_PAYLOAD_SIZE>) -> SessionView<
        MAX_TOPIC_NAME_LENGTH,
        MAX_PAYLOAD_SIZE,
    >,
)
    requires
        ids_unique(v),
        forall|s: SessionView<MAX_TOPIC_NAME_LENGTH, MAX_PAYLOAD_SIZE>| #[trigger] f(s).session_id == s.session_id,
    ensures
        ({
            let (r, w) = update_session(v, session_id, f);
            &&& ids_unique(w)
            &&& session_index(w, session_id) == session_index(v, session_id)
            &&& (r is Ok <==> session_index(v, session_id) is Some)
            &&& session_index(v, session_id) matches Some(i) ==> w[i] == f(v[i])
        }),
{
    let w = update_session(v, session_id, f).1;
    if let Some(i) = session_index(v, session_id) {
        assert(f(v[i]).session_id == v[i].session_id);
        assert forall|k: int| 0 <= k < v.len() implies #[trigger] v[k].session_id == w[k].session_id by {
            if k == i {
                assert(w[k] == f(v[i]));
            }
        }
    }
    assert(same_ids(v, w));
    lemma_same_ids_index(v, w, session_id);
}

/// Queueing a packet for a session keeps every identifier where it was, and changes
/// nothing of the session but the one queue.
proof fn lemma_queue_keeps_session<const MAX_TOPIC_NAME_LENGTH: usize, const MAX_PAYLOAD_SIZE: usize>(
    v: Seq<SessionView<MAX_TOPIC_NAME_LENGTH, MAX_PAYLOAD_SIZE>>,
    session_id: u128,
    packet: Packet<MAX_TOPIC_NAME_LENGTH, MAX_PAYLOAD_SIZE>,
    rx: bool,
    queue_limit: nat,
    queue_size: usize,
)
    requires
        ids_unique(v),
    ensures
        ({
            let (r, w) = queue_packet(v, session_id, packet, rx, queue_limit, queue_size);
            &&& ids_unique(w)
            &&& session_index(w, session_id) == session_index(v, session_id)
            &&& session_index(v, session_id) matches Some(i) ==> {
                &&& w[i].session_id == v[i].session_id
                &&& w[i].client_id == v[i].client_id
                &&& w[i].state == v[i].state
                &&& w[i].keep_alive_secs == v[i].keep_alive_secs
                &&& w[i].last_activity == v[i].last_activity
            }
        }),
{
    let w = queue_packet(v, session_id, packet, rx, queue_limit, queue_size).1;
    assert forall|k: int| 0 <= k < v.len() implies #[trigger] v[k].session_id == w[k].session_id by {}
    assert(same_ids(v, w));
    lemma_same_ids_index(v, w, session_id);
}

/// Recording a received packet fails with `SessionNotFound` when there is no such session,
/// leaving the broker as it was; fails with `SessionQueueFull` when the session's receive
/// queue is full; and otherwise succeeds with the packet appended to that queue. The
/// subscriptions never change.
pub proof fn lemma_received_outcome<const MAX_TOPIC_NAME_LENGTH: usize, const MAX_PAYLOAD_SIZE: usize>(
    b: BrokerView<MAX_TOPIC_NAME_LENGTH, MAX_PAYLOAD_SIZE>,
    session_id: u128,
    packet: Packet<MAX_TOPIC_NAME_LENGTH, MAX_PAYLOAD_SIZE>,
    now: u128,
    queue_limit: nat,
    queue_size: usize,
)
    requires
        ids_unique(b.sessions),
    ensures
        ({
            let (r, a) = broker_received(b, session_id, packet, now, queue_limit, queue_size);
            &&& a.topics == b.topics
            &&& session_index(b.sessions, session_id) is None ==> r == Err::<(), BrokerError>(
                BrokerError::SessionNotFound { session_id },
            ) && a == b
            &&& session_index(b.sessions, session_id) is Some && rx_of(b.sessions, session_id).len()
                >= queue_limit ==> r == Err::<(), BrokerError>(
                BrokerError::SessionQueueFull { session_id, queue_size },
            )
            &&& session_index(b.sessions, session_id) is Some && rx_of(b.sessions, session_id).len()
                < queue_limit ==> r is Ok && rx_of(a.sessions, session_id) == rx_of(b.sessions, session_id).push(
                Some(packet),
            )
        }),
{
    let v = b.sessions;
    let f = |s: SessionView<MAX_TOPIC_NAME_LENGTH, MAX_PAYLOAD_SIZE>| SessionView { last_activity: now, ..s };
    if let Some(i) = session_index(v, session_id) {
        let s1 = v.update(i, f(v[i]));
        assert(update_session(v, session_id, f).1 == s1);
        assert forall|k: int| 0 <= k < v.len() implies #[trigger] v[k].session_id == s1[k].session_id by {}
        assert(same_ids(v, s1));
        lemma_same_ids_index(v, s1, session_id);
        let (r2, s2) = queue_packet(s1, session_id, packet, true, queue_limit, queue_size);
        if s1[i].rx_queue.len() < queue_limit {
            let w = s2;
            assert(w == s1.update(i, SessionView { rx_queue: s1[i].rx_queue.push(Some(packet)), ..s1[i] }));
            assert forall|k: int| 0 <= k < s1.len() implies #[trigger] s1[k].session_id == w[k].session_id by {}
            assert(same_ids(s1, w));
            lemma_same_ids_index(s1, w, session_id);
        }
    }
}

/// The broker once session `session_id` is marked disconnected.
pub open spec fn broker_disconnected<const MAX_TOPIC_NAME_LENGTH: usize, const MAX_PAYLOAD_SIZE: usize>(
    b: BrokerView<MAX_TOPIC_NAME_LENGTH, MAX_PAYLOAD_SIZE>,
    session_id: u128,
) -> BrokerView<MAX_TOPIC_NAME_LENGTH, MAX_PAYLOAD_SIZE> {
    BrokerView {
        sessions: update_session(
            b.sessions,
            session_id,
            |s: SessionView<MAX_TOPIC_NAME_LENGTH, MAX_PAYLOAD_SIZE>|
                SessionView { state: SessionState::Disconnected, ..s },
        ).1,
        ..b
    }
}

/// The packets taken from send queue `q` by taking until it is empty or yields an empty
/// slot, and what is left of the queue; the empty slot is taken too.
pub open spec fn outgoing<const MAX_TOPIC_NAME_LENGTH: usize, const MAX_PAYLOAD_SIZE: usize>(
    q: Seq<Option<Packet<MAX_TOPIC_NAME_LENGTH, MAX_PAYLOAD_SIZE>>>,
) -> (Seq<Packet<MAX_TOPIC_NAME_LENGTH, MAX_PAYLOAD_SIZE>>, Seq<Option<Packet<MAX_TOPIC_NAME_LENGTH, MAX_PAYLOAD_SIZE>>>)
    decreases q.len(),
{
    if q.len() == 0 {
        (Seq::empty(), q)
    } else {
        match q[0] {
            None => (Seq::empty(), q.drop_first()),
            Some(p) => {
                let (ps, rest) = outgoing(q.drop_first());
                (seq![p] + ps, rest)
            },
        }
    }
}

/// The sessions `v` with the send queue of session `session_id` replaced by `q`.
pub open spec fn with_tx<const MAX_TOPIC_NAME_LENGTH: usize, const MAX_PAYLOAD_SIZE: usize>(
    v: Seq<SessionView<MAX_TOPIC_NAME_LENGTH, MAX_PAYLOAD_SIZE>>,
    session_id: u128,
    q: Seq<Option<Packet<MAX_TOPIC_NAME_LENGTH, MAX_PAYLOAD_SIZE>>>,
) -> Seq<SessionView<MAX_TOPIC_NAME_LENGTH, MAX_PAYLOAD_SIZE>> {
    match session_index(v, session_id) {
        Some(i) => v.update(i, SessionView { tx_queue: q, ..v[i] }),
        None => v,
    }
}

proof fn lemma_dequeue_with_tx<const MAX_TOPIC_NAME_LENGTH: usize, const MAX_PAYLOAD_SIZE: usize>(
    v: Seq<SessionView<MAX_TOPIC_NAME_LENGTH, MAX_PAYLOAD_SIZE>>,
    session_id: u128,
    q: Seq<Option<Packet<MAX_TOPIC_NAME_LENGTH, MAX_PAYLOAD_SIZE>>>,
)
    requires
        ids_unique(v),
        session_index(v, session_id) is Some,
    ensures
        ({
            let (r, w) = dequeue_packet(with_tx(v, session_id, q), session_id, false);
            if q.len() == 0 {
                r == Ok::<Option<Packet<MAX_TOPIC_NAME_LENGTH, MAX_PAYLOAD_SIZE>>, BrokerError>(None)
                    && w == with_tx(v, session_id, q)
            } else {
                r == Ok::<Option<Packet<MAX_TOPIC_NAME_LENGTH, MAX_PAYLOAD_SIZE>>, BrokerError>(q[0])
                    && w == with_tx(v, session_id, q.drop_first())
            }
        }),
{
    let i = session_index(v, session_id)->Some_0;
    let u = with_tx(v, session_id, q);
    assert(same_ids(v, u)) by {
        assert forall|k: int| 0 <= k < v.len() implies #[trigger] v[k].session_id == u[k].session_id by {
            if k == i {
                assert(u[k] == SessionView { tx_queue: q, ..v[i] });
            }
        }
    }
    lemma_same_ids_index(v, u, session_id);
    if q.len() > 0 {
        let w = dequeue_packet(u, session_id, false).1;
        assert(w =~= with_tx(v, session_id, q.drop_first()));
    }
}

/// The broker: a topic registry and a session registry.
#[derive(Debug)]
pub struct PicoBroker<
    const MAX_TOPIC_NAME_LENGTH: usize,
    const MAX_PAYLOAD_SIZE: usize,
    const QUEUE_SIZE: usize,
    const MAX_SESSIONS: usize,
    const MAX_TOPICS: usize,
    const MAX_SUBSCRIBERS_PER_TOPIC: usize,
> {
    topics: TopicRegistry<MAX_TOPIC_NAME_LENGTH, MAX_TOPICS, MAX_SUBSCRIBERS_PER_TOPIC>,
    sessions: SessionRegistry<
        MAX_TOPIC_NAME_LENGTH,
        MAX_PAYLOAD_SIZE,
        QUEUE_SIZE,
        MAX_SESSIONS,
        MAX_TOPICS,
        MAX_SUBSCRIBERS_PER_TOPIC,
    >,
}

impl<
    const MAX_TOPIC_NAME_LENGTH: usize,
    const MAX_PAYLOAD_SIZE: usize,
    const QUEUE_SIZE: usize,
    const MAX_SESSIONS: usize,
    const MAX_TOPICS: usize,
    const MAX_SUBSCRIBERS_PER_TOPIC: usize,
> View for PicoBroker<
    MAX_TOPIC_NAME_LENGTH,
    MAX_PAYLOAD_SIZE,
    QUEUE_SIZE,
    MAX_SESSIONS,
    MAX_TOPICS,
    MAX_SUBSCRIBERS_PER_TOPIC,
> {
    type V = BrokerView<MAX_TOPIC_NAME_LENGTH, MAX_PAYLOAD_SIZE>;

    closed spec fn view(&self) -> BrokerView<MAX_TOPIC_NAME_LENGTH, MAX_PAYLOAD_SIZE> {
        BrokerView { topics: self.topics@, sessions: self.sessions@ }
    }
}

impl<
    const MAX_TOPIC_NAME_LENGTH: usize,
    const MAX_PAYLOAD_SIZE: usize,
    const QUEUE_SIZE: usize,
    const MAX_SESSIONS: usize,
    const MAX_TOPICS: usize,
    const MAX_SUBSCRIBERS_PER_TOPIC: usize,
> PicoBroker<
    MAX_TOPIC_NAME_LENGTH,
    MAX_PAYLOAD_SIZE,
    QUEUE_SIZE,
    MAX_SESSIONS,
    MAX_TOPICS,
    MAX_SUBSCRIBERS_PER_TOPIC,
> {
    /// The most subscribers one filter holds.
    pub open spec fn sub_limit() -> nat {
        TopicRegistry::<MAX_TOPIC_NAME_LENGTH, MAX_TOPICS, MAX_SUBSCRIBERS_PER_TOPIC>::subscriber_limit()
    }

    /// The most packets a session queue holds.
    pub open spec fn queue_limit() -> nat {
        SessionRegistry::<
            MAX_TOPIC_NAME_LENGTH,
            MAX_PAYLOAD_SIZE,
            QUEUE_SIZE,
            MAX_SESSIONS,
            MAX_TOPICS,
            MAX_SUBSCRIBERS_PER_TOPIC,
        >::queue_limit()
    }

    /// Queueing `packet` to send to session `session_id`.
    pub open spec fn send(
        v: Seq<SessionView<MAX_TOPIC_NAME_LENGTH, MAX_PAYLOAD_SIZE>>,
        session_id: u128,
        packet: Packet<MAX_TOPIC_NAME_LENGTH, MAX_PAYLOAD_SIZE>,
    ) -> (Result<(), BrokerError>, Seq<SessionView<MAX_TOPIC_NAME_LENGTH, MAX_PAYLOAD_SIZE>>) {
        queue_packet(v, session_id, packet, false, Self::queue_limit(), QUEUE_SIZE)
    }

    /// Queueing `packet` to send to each of `ids` in turn, stopping at the first failure.
    pub open spec fn forward(
        v: Seq<SessionView<MAX_TOPIC_NAME_LENGTH, MAX_PAYLOAD_SIZE>>,
        ids: Seq<u128>,
        packet: Packet<MAX_TOPIC_NAME_LENGTH, MAX_PAYLOAD_SIZE>,
    ) -> (Result<(), BrokerError>, Seq<SessionView<MAX_TOPIC_NAME_LENGTH, MAX_PAYLOAD_SIZE>>)
        decreases ids.len(),
    {
        if ids.len() == 0 {
            (Ok(()), v)
        } else {
            let (r, v1) = Self::send(v, ids[0], packet);
            if r is Err {
                (r, v1)
            } else {
                Self::forward(v1, ids.drop_first(), packet)
            }
        }
    }

    /// Handling a CONNECT: record the client identifier (when not empty) and keep-alive,
    /// mark the session connected, and answer with an accepting CONNACK.
    pub open spec fn on_connect(
        b: BrokerView<MAX_TOPIC_NAME_LENGTH, MAX_PAYLOAD_SIZE>,
        session_id: u128,
        c: ConnectPacket<MAX_TOPIC_NAME_LENGTH, MAX_PAYLOAD_SIZE>,
    ) -> (Result<(), BrokerError>, BrokerView<MAX_TOPIC_NAME_LENGTH, MAX_PAYLOAD_SIZE>) {
        let (r1, s1) = if c.client_id@.len() > 0 {
            update_session(
                b.sessions,
                session_id,
                |s: SessionView<MAX_TOPIC_NAME_LENGTH, MAX_PAYLOAD_SIZE>|
                    SessionView { client_id: Some(c.client_id), ..s },
            )
        } else {
            (Ok(()), b.sessions)
        };
        if r1 is Err {
            (r1, BrokerView { sessions: s1, ..b })
        } else {
            let (r2, s2) = update_session(
                s1,
                session_id,
                |s: SessionView<MAX_TOPIC_NAME_LENGTH, MAX_PAYLOAD_SIZE>|
                    SessionView { keep_alive_secs: c.keep_alive, ..s },
            );
            if r2 is Err {
                (r2, BrokerView { sessions: s2, ..b })
            } else {
                let (r3, s3) = update_session(
                    s2,
                    session_id,
                    |s: SessionView<MAX_TOPIC_NAME_LENGTH, MAX_PAYLOAD_SIZE>|
                        SessionView { state: SessionState::Connected, ..s },
                );
                if r3 is Err {
                    (r3, BrokerView { sessions: s3, ..b })
                } else {
                    let (r4, s4) = Self::send(s3, session_id, Packet::ConnAck(connack_accepted()));
                    (r4, BrokerView { sessions: s4, ..b })
                }
            }
        }
    }

    /// Handling a PUBLISH: a copy to every session subscribed to a matching filter, then a
    /// PUBACK to the sender when the QoS asks for one and the packet has an identifier.
    pub open spec fn on_publish(
        b: BrokerView<MAX_TOPIC_NAME_LENGTH, MAX_PAYLOAD_SIZE>,
        session_id: u128,
        p: PublishPacket<MAX_TOPIC_NAME_LENGTH, MAX_PAYLOAD_SIZE>,
    ) -> (Result<(), BrokerError>, BrokerView<MAX_TOPIC_NAME_LENGTH, MAX_PAYLOAD_SIZE>) {
        let subs = subscribers_for(b.topics, text_bytes(p.topic_name@), Self::sub_limit());
        let (r1, s1) = Self::forward(b.sessions, subs, Packet::Publish(p));
        if r1 is Err {
            (r1, BrokerView { sessions: s1, ..b })
        } else if p.qos != QoS::AtMostOnce && p.packet_id is Some {
            let (r2, s2) = Self::send(
                s1,
                session_id,
                Packet::PubAck(PubAckPacket { packet_id: p.packet_id.unwrap() }),
            );
            (r2, BrokerView { sessions: s2, ..b })
        } else {
            (Ok(()), BrokerView { sessions: s1, ..b })
        }
    }

    /// Handling a SUBSCRIBE: subscribe the session, then answer with a SUBACK granting the
    /// requested QoS.
    pub open spec fn on_subscribe(
        b: BrokerView<MAX_TOPIC_NAME_LENGTH, MAX_PAYLOAD_SIZE>,
        session_id: u128,
        p: SubscribePacket<MAX_TOPIC_NAME_LENGTH>,
    ) -> (Result<(), BrokerError>, BrokerView<MAX_TOPIC_NAME_LENGTH, MAX_PAYLOAD_SIZE>) {
        let (r1, t1) = TopicRegistry::<
            MAX_TOPIC_NAME_LENGTH,
            MAX_TOPICS,
            MAX_SUBSCRIBERS_PER_TOPIC,
        >::after_subscribe(b.topics, session_id, p.topic_filter@);
        if r1 is Err {
            (r1, BrokerView { topics: t1, ..b })
        } else {
            let (r2, s2) = Self::send(
                b.sessions,
                session_id,
                Packet::SubAck(SubAckPacket { packet_id: p.packet_id, granted_qos: p.requested_qos }),
            );
            (r2, BrokerView { topics: t1, sessions: s2 })
        }
    }

    /// Handling one packet received from session `session_id`.
    pub open spec fn on_packet(
        b: BrokerView<MAX_TOPIC_NAME_LENGTH, MAX_PAYLOAD_SIZE>,
        session_id: u128,
        packet: Packet<MAX_TOPIC_NAME_LENGTH, MAX_PAYLOAD_SIZE>,
    ) -> (Result<(), BrokerError>, BrokerView<MAX_TOPIC_NAME_LENGTH, MAX_PAYLOAD_SIZE>) {
        match packet {
            Packet::Connect(c) => Self::on_connect(b, session_id, c),
            Packet::Publish(p) => Self::on_publish(b, session_id, p),
            Packet::Subscribe(p) => Self::on_subscribe(b, session_id, p),
            Packet::PingReq(_) => {
                let (r, s) = Self::send(b.sessions, session_id, Packet::PingResp(PingRespPacket));
                (r, BrokerView { sessions: s, ..b })
            },
            Packet::Disconnect(_) => {
                let (r, s) = update_session(
                    b.sessions,
                    session_id,
                    |s: SessionView<MAX_TOPIC_NAME_LENGTH, MAX_PAYLOAD_SIZE>|
                        SessionView { state: SessionState::Disconnected, ..s },
                );
                (r, BrokerView { sessions: s, ..b })
            },
            _ => (Ok(()), b),
        }
    }

    /// Draining the receive queue of session `session_id`: each packet taken in turn and
    /// handled, until the queue is empty or holds no packet, or a step fails; `fuel` bounds
    /// the number of packets.
    pub open spec fn drain(
        b: BrokerView<MAX_TOPIC_NAME_LENGTH, MAX_PAYLOAD_SIZE>,
        session_id: u128,
        fuel: nat,
    ) -> (Result<(), BrokerError>, BrokerView<MAX_TOPIC_NAME_LENGTH, MAX_PAYLOAD_SIZE>)
        decreases fuel,
    {
        let (r, s1) = dequeue_packet(b.sessions, session_id, true);
        let b1 = BrokerView { sessions: s1, ..b };
        match r {
            Err(e) => (Err(e), b1),
            Ok(None) => (Ok(()), b1),
            Ok(Some(packet)) => {
                let (r2, b2) = Self::on_packet(b1, session_id, packet);
                if r2 is Err || fuel == 0 {
                    (r2, b2)
                } else {
                    Self::drain(b2, session_id, (fuel - 1) as nat)
                }
            },
        }
    }

    /// Draining the sessions `ids` in turn, stopping at the first failure.
    pub open spec fn drain_all(b: BrokerView<MAX_TOPIC_NAME_LENGTH, MAX_PAYLOAD_SIZE>, ids: Seq<u128>) -> (
        Result<(), BrokerError>,
        BrokerView<MAX_TOPIC_NAME_LENGTH, MAX_PAYLOAD_SIZE>,
    )
        decreases ids.len(),
    {
        if ids.len() == 0 {
            (Ok(()), b)
        } else {
            let (r, b1) = Self::drain(b, ids[0], rx_of(b.sessions, ids[0]).len());
            if r is Err {
                (r, b1)
            } else {
                Self::drain_all(b1, ids.drop_first())
            }
        }
    }

    /// Every packet of a queue that holds packets only.
    pub open spec fn all_packets(q: Seq<Option<Packet<MAX_TOPIC_NAME_LENGTH, MAX_PAYLOAD_SIZE>>>) -> bool {
        forall|k: int| 0 <= k < q.len() ==> #[trigger] q[k] is Some
    }

    proof fn lemma_drain_step(b: BrokerView<MAX_TOPIC_NAME_LENGTH, MAX_PAYLOAD_SIZE>, session_id: u128, x: u128)
        requires
            ids_unique(b.sessions),
            x != session_id,
        ensures
            ({
                let (r, s1) = dequeue_packet(b.sessions, session_id, true);
                &&& ids_unique(s1)
                &&& rx_of(s1, x) == rx_of(b.sessions, x)
            }),
    {
        let (r, s1) = dequeue_packet(b.sessions, session_id, true);
        lemma_dequeue_rx(b.sessions, session_id);
        lemma_same_ids_index(b.sessions, s1, x);
        if let Some(i) = session_index(b.sessions, session_id) {
            if let Some(j) = session_index(b.sessions, x) {
                assert(j != i);
            }
        }
    }

    /// Draining a session's receive queue leaves every other session's receive queue as it
    /// was; when the queue held packets only and the draining succeeds, it ends empty.
    pub proof fn lemma_drain_empties(b: BrokerView<MAX_TOPIC_NAME_LENGTH, MAX_PAYLOAD_SIZE>, session_id: u128, fuel: nat)
        requires
            ids_unique(b.sessions),
            fuel == rx_of(b.sessions, session_id).len(),
        ensures
            ids_unique(Self::drain(b, session_id, fuel).1.sessions),
            same_ids(b.sessions, Self::drain(b, session_id, fuel).1.sessions),
            forall|x: u128| x != session_id ==> #[trigger] rx_of(Self::drain(b, session_id, fuel).1.sessions, x)
                == rx_of(b.sessions, x),
            Self::all_packets(rx_of(b.sessions, session_id)) && Self::drain(b, session_id, fuel).0 is Ok
                ==> rx_of(Self::drain(b, session_id, fuel).1.sessions, session_id).len() == 0,
        decreases fuel,
    {
        let (r, s1) = dequeue_packet(b.sessions, session_id, true);
        let b1 = BrokerView { sessions: s1, ..b };
        lemma_dequeue_rx(b.sessions, session_id);
        assert forall|x: u128| x != session_id implies #[trigger] rx_of(s1, x) == rx_of(b.sessions, x) by {
            Self::lemma_drain_step(b, session_id, x);
        }
        match r {
            Err(e) => {},
            Ok(None) => {
                if rx_of(b.sessions, session_id).len() > 0 {
                    assert(rx_of(b.sessions, session_id)[0] is None);
                }
            },
            Ok(Some(packet)) => {
                let (r2, b2) = Self::on_packet(b1, session_id, packet);
                Self::lemma_on_packet_keeps_rx(b1, session_id, packet);
                lemma_same_rx_same_ids(s1, b2.sessions);
                lemma_same_rx_of(s1, b2.sessions, session_id);
                assert forall|x: u128| x != session_id implies #[trigger] rx_of(b2.sessions, x) == rx_of(
                    b.sessions,
                    x,
                ) by {
                    lemma_same_rx_of(s1, b2.sessions, x);
                }
                assert(same_ids(b.sessions, b2.sessions)) by {
                    assert forall|i: int| 0 <= i < b.sessions.len() implies b.sessions[i].session_id
                        == b2.sessions[i].session_id by {
                        assert(b.sessions[i].session_id == s1[i].session_id);
                        assert(s1[i].session_id == b2.sessions[i].session_id);
                    }
                }
                if r2 is Ok && fuel > 0 {
                    let fuel2 = (fuel - 1) as nat;
                    Self::lemma_drain_empties(b2, session_id, fuel2);
                    let b3 = Self::drain(b2, session_id, fuel2).1;
                    assert(same_ids(b.sessions, b3.sessions)) by {
                        assert forall|i: int| 0 <= i < b.sessions.len() implies b.sessions[i].session_id
                            == b3.sessions[i].session_id by {
                            assert(b.sessions[i].session_id == b2.sessions[i].session_id);
                            assert(b2.sessions[i].session_id == b3.sessions[i].session_id);
                        }
                    }
                    if Self::all_packets(rx_of(b.sessions, session_id)) {
                        let q = rx_of(b.sessions, session_id);
                        assert forall|k: int| 0 <= k < q.drop_first().len() implies #[trigger] q.drop_first()[k]
                            is Some by {
                            assert(q.drop_first()[k] == q[k + 1]);
                        }
                    }
                }
            },
        }
    }

    proof fn lemma_drain_all_empties(b: BrokerView<MAX_TOPIC_NAME_LENGTH, MAX_PAYLOAD_SIZE>, ids: Seq<u128>)
        requires
            ids_unique(b.sessions),
            ids.no_duplicates(),
            forall|x: u128| ids.contains(x) ==> Self::all_packets(#[trigger] rx_of(b.sessions, x)),
        ensures
            ids_unique(Self::drain_all(b, ids).1.sessions),
            forall|x: u128| !ids.contains(x) ==> #[trigger] rx_of(Self::drain_all(b, ids).1.sessions, x)
                == rx_of(b.sessions, x),
            Self::drain_all(b, ids).0 is Ok ==> forall|x: u128| #[trigger] ids.contains(x) ==> rx_of(
                Self::drain_all(b, ids).1.sessions,
                x,
            ).len() == 0,
        decreases ids.len(),
    {
        if ids.len() > 0 {
            let id = ids[0];
            let fuel = rx_of(b.sessions, id).len();
            assert(ids.contains(id));
            Self::lemma_drain_empties(b, id, fuel);
            let (r, b1) = Self::drain(b, id, fuel);
            let tail = ids.drop_first();
            assert(tail.no_duplicates()) by {
                assert forall|i: int, j: int| 0 <= i < tail.len() && 0 <= j < tail.len() && i != j implies tail[i]
                    != tail[j] by {
                    assert(tail[i] == ids[i + 1] && tail[j] == ids[j + 1]);
                }
            }
            assert(!tail.contains(id)) by {
                if tail.contains(id) {
                    let k = choose|k: int| 0 <= k < tail.len() && tail[k] == id;
                    assert(ids[k + 1] == ids[0]);
                }
            }
            assert forall|x: u128| #[trigger] tail.contains(x) implies ids.contains(x) && x != id by {
                let k = choose|k: int| 0 <= k < tail.len() && tail[k] == x;
                assert(ids[k + 1] == x);
            }
            if r is Ok {
                assert forall|x: u128| tail.contains(x) implies Self::all_packets(#[trigger] rx_of(b1.sessions, x)) by {
                    assert(ids.contains(x) && x != id);
                }
                Self::lemma_drain_all_empties(b1, tail);
                let b2 = Self::drain_all(b1, tail).1;
                assert forall|x: u128| !ids.contains(x) implies #[trigger] rx_of(b2.sessions, x) == rx_of(
                    b.sessions,
                    x,
                ) by {
                    assert(!tail.contains(x));
                    assert(x != id);
                }
                if Self::drain_all(b1, tail).0 is Ok {
                    assert forall|x: u128| #[trigger] ids.contains(x) implies rx_of(b2.sessions, x).len() == 0 by {
                        if x == id {
                            assert(!tail.contains(x));
                        } else {
                            let k = choose|k: int| 0 <= k < ids.len() && ids[k] == x;
                            assert(k > 0);
                            assert(tail[k - 1] == x);
                        }
                    }
                }
            } else {
                assert forall|x: u128| !ids.contains(x) implies #[trigger] rx_of(b1.sessions, x) == rx_of(
                    b.sessions,
                    x,
                ) by {
                    assert(x != id);
                }
            }
        }
    }

    /// Once every session's packets have been handled without failure, no session has a
    /// packet left waiting, provided the receive queues held packets only.
    pub proof fn lemma_process_all_drains(b: BrokerView<MAX_TOPIC_NAME_LENGTH, MAX_PAYLOAD_SIZE>)
        requires
            ids_unique(b.sessions),
            forall|i: int| 0 <= i < b.sessions.len() ==> Self::all_packets(#[trigger] b.sessions[i].rx_queue),
        ensures
            ({
                let ids = ids_where(b.sessions, |s: SessionView<MAX_TOPIC_NAME_LENGTH, MAX_PAYLOAD_SIZE>| true);
                let (r, b2) = Self::drain_all(b, ids);
                r is Ok ==> forall|i: int| 0 <= i < b.sessions.len() ==> #[trigger] rx_of(
                    b2.sessions,
                    b.sessions[i].session_id,
                ).len() == 0
            }),
    {
        let ids = ids_where(b.sessions, |s: SessionView<MAX_TOPIC_NAME_LENGTH, MAX_PAYLOAD_SIZE>| true);
        lemma_ids_where_all(b.sessions);
        assert(ids.no_duplicates()) by {
            assert forall|i: int, j: int| 0 <= i < ids.len() && 0 <= j < ids.len() && i != j implies ids[i]
                != ids[j] by {
                assert(ids[i] == b.sessions[i].session_id);
                assert(ids[j] == b.sessions[j].session_id);
            }
        }
        assert forall|x: u128| ids.contains(x) implies Self::all_packets(#[trigger] rx_of(b.sessions, x)) by {
            let k = choose|k: int| 0 <= k < ids.len() && ids[k] == x;
            assert(ids[k] == b.sessions[k].session_id);
            lemma_index_at(b.sessions, k);
        }
        Self::lemma_drain_all_empties(b, ids);
        assert forall|i: int| 0 <= i < b.sessions.len() implies #[trigger] ids.contains(b.sessions[i].session_id) by {
            assert(ids[i] == b.sessions[i].session_id);
        }
    }

    proof fn lemma_send_tx(
        v: Seq<SessionView<MAX_TOPIC_NAME_LENGTH, MAX_PAYLOAD_SIZE>>,
        session_id: u128,
        packet: Packet<MAX_TOPIC_NAME_LENGTH, MAX_PAYLOAD_SIZE>,
    )
        requires
            ids_unique(v),
        ensures
            ({
                let (r, w) = Self::send(v, session_id, packet);
                &&& ids_unique(w)
                &&& r is Ok ==> session_index(v, session_id) is Some && tx_of(w, session_id) == tx_of(
                    v,
                    session_id,
                ).push(Some(packet))
                &&& forall|x: u128| x != session_id ==> #[trigger] tx_of(w, x) == tx_of(v, x)
            }),
    {
        let (r, w) = Self::send(v, session_id, packet);
        Self::lemma_send_keeps_rx(v, session_id, packet);
        lemma_same_rx_same_ids(v, w);
        lemma_same_ids_index(v, w, session_id);
        assert forall|x: u128| x != session_id implies #[trigger] tx_of(w, x) == tx_of(v, x) by {
            lemma_same_ids_index(v, w, x);
            if let Some(j) = session_index(v, x) {
                if let Some(i) = session_index(v, session_id) {
                    assert(i != j);
                }
            }
        }
    }

    /// Forwarding a packet to distinct sessions without failure appends it to the send
    /// queue of each of them, and leaves every other send queue as it was.
    pub proof fn lemma_forward_delivers(
        v: Seq<SessionView<MAX_TOPIC_NAME_LENGTH, MAX_PAYLOAD_SIZE>>,
        ids: Seq<u128>,
        packet: Packet<MAX_TOPIC_NAME_LENGTH, MAX_PAYLOAD_SIZE>,
    )
        requires
            ids_unique(v),
            ids.no_duplicates(),
        ensures
            ({
                let (r, w) = Self::forward(v, ids, packet);
                &&& ids_unique(w)
                &&& forall|x: u128| !ids.contains(x) ==> #[trigger] tx_of(w, x) == tx_of(v, x)
                &&& r is Ok ==> forall|x: u128| #[trigger] ids.contains(x) ==> tx_of(w, x) == tx_of(
                    v,
                    x,
                ).push(Some(packet))
            }),
        decreases ids.len(),
    {
        if ids.len() > 0 {
            let id = ids[0];
            let (r1, v1) = Self::send(v, id, packet);
            Self::lemma_send_tx(v, id, packet);
            let tail = ids.drop_first();
            assert(tail.no_duplicates()) by {
                assert forall|i: int, j: int| 0 <= i < tail.len() && 0 <= j < tail.len() && i != j implies tail[i]
                    != tail[j] by {
                    assert(tail[i] == ids[i + 1] && tail[j] == ids[j + 1]);
                }
            }
            assert(!tail.contains(id)) by {
                if tail.contains(id) {
                    let k = choose|k: int| 0 <= k < tail.len() && tail[k] == id;
                    assert(ids[k + 1] == ids[0]);
                }
            }
            assert forall|x: u128| #[trigger] tail.contains(x) implies ids.contains(x) && x != id by {
                let k = choose|k: int| 0 <= k < tail.len() && tail[k] == x;
                assert(ids[k + 1] == x);
            }
            assert(ids.contains(id)) by {
                assert(ids[0] == id);
            }
            if r1 is Ok {
                Self::lemma_forward_delivers(v1, tail, packet);
                let w = Self::forward(v1, tail, packet).1;
                assert forall|x: u128| !ids.contains(x) implies #[trigger] tx_of(w, x) == tx_of(v, x) by {
                    assert(!tail.contains(x));
                    assert(x != id);
                }
                if Self::forward(v1, tail, packet).0 is Ok {
                    assert forall|x: u128| #[trigger] ids.contains(x) implies tx_of(w, x) == tx_of(v, x).push(
                        Some(packet),
                    ) by {
                        if x == id {
                            assert(!tail.contains(x));
                            assert(tx_of(w, x) == tx_of(v1, x));
                            assert(tx_of(v1, x) == tx_of(v, x).push(Some(packet)));
                        } else {
                            let k = choose|k: int| 0 <= k < ids.len() && ids[k] == x;
                            assert(k > 0);
                            assert(tail[k - 1] == x);
                            assert(tail.contains(x));
                            assert(tx_of(w, x) == tx_of(v1, x).push(Some(packet)));
                            assert(tx_of(v1, x) == tx_of(v, x));
                        }
                    }
                }
            } else {
                assert forall|x: u128| !ids.contains(x) implies #[trigger] tx_of(v1, x) == tx_of(v, x) by {
                    assert(x != id);
                }
            }
        }
    }

    /// Handling a CONNECT, a SUBSCRIBE or a PINGREQ without failure answers the sender, at
    /// the end of its send queue, with an accepting CONNACK, a SUBACK granting the requested
    /// QoS under the same packet identifier, or a PINGRESP; every other send queue is left as
    /// it was.
    pub proof fn lemma_on_packet_answers(
        b: BrokerView<MAX_TOPIC_NAME_LENGTH, MAX_PAYLOAD_SIZE>,
        session_id: u128,
        packet: Packet<MAX_TOPIC_NAME_LENGTH, MAX_PAYLOAD_SIZE>,
    )
        requires
            ids_unique(b.sessions),
            packet is Connect || packet is Subscribe || packet is PingReq,
        ensures
            ({
                let (r, after) = Self::on_packet(b, session_id, packet);
                let reply = match packet {
                    Packet::Connect(_) => Packet::ConnAck(connack_accepted()),
                    Packet::Subscribe(p) => Packet::SubAck(
                        SubAckPacket { packet_id: p.packet_id, granted_qos: p.requested_qos },
                    ),
                    _ => Packet::PingResp(PingRespPacket),
                };
                r is Ok ==> {
                    &&& tx_of(after.sessions, session_id) == tx_of(b.sessions, session_id).push(Some(reply))
                    &&& forall|x: u128| x != session_id ==> #[trigger] tx_of(after.sessions, x) == tx_of(b.sessions, x)
                }
            }),
    {
        let v = b.sessions;
        match packet {
            Packet::Connect(c) => {
                let f1 = |s: SessionView<MAX_TOPIC_NAME_LENGTH, MAX_PAYLOAD_SIZE>|
                    SessionView { client_id: Some(c.client_id), ..s };
                let f2 = |s: SessionView<MAX_TOPIC_NAME_LENGTH, MAX_PAYLOAD_SIZE>|
                    SessionView { keep_alive_secs: c.keep_alive, ..s };
                let f3 = |s: SessionView<MAX_TOPIC_NAME_LENGTH, MAX_PAYLOAD_SIZE>|
                    SessionView { state: SessionState::Connected, ..s };
                let s1 = if c.client_id@.len() > 0 {
                    update_session(v, session_id, f1).1
                } else {
                    v
                };
                if c.client_id@.len() > 0 {
                    lemma_update_keeps_tx(v, session_id, f1);
                }
                let s2 = update_session(s1, session_id, f2).1;
                lemma_update_keeps_tx(s1, session_id, f2);
                let s3 = update_session(s2, session_id, f3).1;
                lemma_update_keeps_tx(s2, session_id, f3);
                Self::lemma_send_tx(s3, session_id, Packet::ConnAck(connack_accepted()));
                let s4 = Self::send(s3, session_id, Packet::ConnAck(connack_accepted())).1;
                assert forall|x: u128| #[trigger] tx_of(s3, x) == tx_of(v, x) by {
                    assert(tx_of(s3, x) == tx_of(s2, x));
                    assert(tx_of(s2, x) == tx_of(s1, x));
                }
            },
            Packet::Subscribe(p) => {
                Self::lemma_send_tx(
                    v,
                    session_id,
                    Packet::SubAck(SubAckPacket { packet_id: p.packet_id, granted_qos: p.requested_qos }),
                );
            },
            _ => {
                Self::lemma_send_tx(v, session_id, Packet::PingResp(PingRespPacket));
            },
        }
    }

    /// Handling a CONNECT from a session succeeds only when the session is registered, and
    /// then leaves it connected, with the keep-alive the CONNECT asks for and, when the
    /// CONNECT names a client, that client identifier; its identifier, last activity and
    /// receive queue stay as they were, and the subscriptions are untouched.
    pub proof fn lemma_connect_records(
        b: BrokerView<MAX_TOPIC_NAME_LENGTH, MAX_PAYLOAD_SIZE>,
        session_id: u128,
        c: ConnectPacket<MAX_TOPIC_NAME_LENGTH, MAX_PAYLOAD_SIZE>,
    )
        requires
            ids_unique(b.sessions),
        ensures
            ({
                let (r, after) = Self::on_packet(b, session_id, Packet::Connect(c));
                &&& after.topics == b.topics
                &&& r is Ok ==> session_index(b.sessions, session_id) is Some
                &&& session_index(b.sessions, session_id) is None ==> r is Err
                &&& r is Ok ==> (session_index(after.sessions, session_id) matches Some(i) && {
                    let old_s = b.sessions[session_index(b.sessions, session_id)->Some_0];
                    let s = after.sessions[i];
                    &&& s.state == SessionState::Connected
                    &&& s.keep_alive_secs == c.keep_alive
                    &&& (c.client_id@.len() > 0 ==> s.client_id == Some(c.client_id))
                    &&& (c.client_id@.len() == 0 ==> s.client_id == old_s.client_id)
                    &&& s.last_activity == old_s.last_activity
                    &&& s.rx_queue == old_s.rx_queue
                })
            }),
    {
        let v = b.sessions;
        let f1 = |s: SessionView<MAX_TOPIC_NAME_LENGTH, MAX_PAYLOAD_SIZE>| SessionView { client_id: Some(c.client_id), ..s };
        let f2 = |s: SessionView<MAX_TOPIC_NAME_LENGTH, MAX_PAYLOAD_SIZE>| SessionView { keep_alive_secs: c.keep_alive, ..s };
        let f3 = |s: SessionView<MAX_TOPIC_NAME_LENGTH, MAX_PAYLOAD_SIZE>| SessionView { state: SessionState::Connected, ..s };
        let s1 = if c.client_id@.len() > 0 {
            lemma_update_at(v, session_id, f1);
            update_session(v, session_id, f1).1
        } else {
            v
        };
        lemma_update_at(s1, session_id, f2);
        let s2 = update_session(s1, session_id, f2).1;
        lemma_update_at(s2, session_id, f3);
        let s3 = update_session(s2, session_id, f3).1;
        lemma_queue_keeps_session(s3, session_id, Packet::ConnAck(connack_accepted()), false, Self::queue_limit(), QUEUE_SIZE);
    }

    /// Handling a DISCONNECT from a session succeeds exactly when the session is
    /// registered, and then leaves it disconnected with everything else of it unchanged;
    /// no other session and no subscription changes.
    pub proof fn lemma_disconnect_marks(
        b: BrokerView<MAX_TOPIC_NAME_LENGTH, MAX_PAYLOAD_SIZE>,
        session_id: u128,
        d: crate::protocol::packets::DisconnectPacket,
    )
        requires
            ids_unique(b.sessions),
        ensures
            ({
                let (r, after) = Self::on_packet(b, session_id, Packet::Disconnect(d));
                &&& after.topics == b.topics
                &&& (r is Ok <==> session_index(b.sessions, session_id) is Some)
                &&& r is Err ==> after.sessions == b.sessions
                &&& session_index(b.sessions, session_id) matches Some(i) ==> {
                    &&& session_index(after.sessions, session_id) == Some(i)
                    &&& after.sessions == b.sessions.update(
                        i,
                        SessionView { state: SessionState::Disconnected, ..b.sessions[i] },
                    )
                    &&& after.sessions[i].state == SessionState::Disconnected
                }
            }),
    {
        let f = |s: SessionView<MAX_TOPIC_NAME_LENGTH, MAX_PAYLOAD_SIZE>| SessionView { state: SessionState::Disconnected, ..s };
        lemma_update_at(b.sessions, session_id, f);
    }

    /// Handling a SUBSCRIBE that succeeds leaves the session subscribed to the filter it
    /// asked for and takes no subscription away: every session that any filter held before,
    /// the same filter still holds. The sessions are changed only by the SUBACK.
    pub proof fn lemma_subscribe_keeps_and_adds(
        b: BrokerView<MAX_TOPIC_NAME_LENGTH, MAX_PAYLOAD_SIZE>,
        session_id: u128,
        p: SubscribePacket<MAX_TOPIC_NAME_LENGTH>,
    )
        requires
            registry_wf(b.topics, Self::sub_limit()),
        ensures
            ({
                let (r, after) = Self::on_packet(b, session_id, Packet::Subscribe(p));
                &&& r is Ok ==> exists|j: int|
                    0 <= j < after.topics.len() && after.topics[j].name == p.topic_filter@
                        && #[trigger] after.topics[j].subscribers.contains(session_id)
                &&& r is Ok ==> forall|i: int, x: u128|
                    0 <= i < b.topics.len() && #[trigger] b.topics[i].subscribers.contains(x) ==> exists|j: int|
                        0 <= j < after.topics.len() && after.topics[j].name == b.topics[i].name
                            && #[trigger] after.topics[j].subscribers.contains(x)
            }),
    {
        let v = b.topics;
        let name = p.topic_filter@;
        let t1 = TopicRegistry::<MAX_TOPIC_NAME_LENGTH, MAX_TOPICS, MAX_SUBSCRIBERS_PER_TOPIC>::after_subscribe(
            v,
            session_id,
            name,
        ).1;
        assert(Self::on_packet(b, session_id, Packet::Subscribe(p)) == Self::on_subscribe(b, session_id, p));
        assert(Self::on_packet(b, session_id, Packet::Subscribe(p)).1.topics == t1);
        match entry_index(v, name) {
            Some(k) => {
                let subs = v[k].subscribers;
                assert(v[k].name == name);
                if subs.contains(session_id) {
                    assert(t1 == v);
                    assert(t1[k].subscribers.contains(session_id));
                    assert forall|i: int, x: u128|
                        0 <= i < v.len() && #[trigger] v[i].subscribers.contains(x) implies exists|j: int|
                            0 <= j < t1.len() && t1[j].name == v[i].name && #[trigger] t1[j].subscribers.contains(x) by {
                        assert(t1[i].subscribers.contains(x));
                    }
                } else if subs.len() < Self::sub_limit() {
                    assert(t1[k].name == name);
                    assert(t1[k].subscribers == subs.push(session_id));
                    assert(t1[k].subscribers[subs.len() as int] == session_id);
                    assert(t1[k].subscribers.contains(session_id));
                    assert forall|i: int, x: u128|
                        0 <= i < v.len() && #[trigger] v[i].subscribers.contains(x) implies exists|j: int|
                            0 <= j < t1.len() && t1[j].name == v[i].name && #[trigger] t1[j].subscribers.contains(x) by {
                        if i == k {
                            let q = choose|q: int| 0 <= q < subs.len() && subs[q] == x;
                            assert(t1[k].subscribers[q] == x);
                            assert(t1[k].subscribers.contains(x));
                        } else {
                            assert(t1[i] == v[i]);
                            assert(t1[i].subscribers.contains(x));
                        }
                    }
                }
            },
            None => {
                if v.len() < MAX_TOPICS && Self::sub_limit() > 0 && v.len() < TopicRegistry::<
                    MAX_TOPIC_NAME_LENGTH,
                    MAX_TOPICS,
                    MAX_SUBSCRIBERS_PER_TOPIC,
                >::topic_limit() {
                    let last = v.len() as int;
                    assert(t1[last].name == name);
                    assert(t1[last].subscribers == seq![session_id]);
                    assert(t1[last].subscribers[0] == session_id);
                    assert(t1[last].subscribers.contains(session_id));
                    assert forall|i: int, x: u128|
                        0 <= i < v.len() && #[trigger] v[i].subscribers.contains(x) implies exists|j: int|
                            0 <= j < t1.len() && t1[j].name == v[i].name && #[trigger] t1[j].subscribers.contains(x) by {
                        assert(t1[i] == v[i]);
                        assert(t1[i].subscribers.contains(x));
                    }
                }
            },
        }
    }

    /// Handling a PUBLISH without failure delivers it once to each session subscribed to a
    /// matching filter, at the end of its send queue; a QoS above 0 with a packet identifier
    /// also answers the sender with a PUBACK under that identifier, after any copy of its own.
    /// The other send queues are left as they were.
    pub proof fn lemma_publish_fans_out(
        b: BrokerView<MAX_TOPIC_NAME_LENGTH, MAX_PAYLOAD_SIZE>,
        session_id: u128,
        p: PublishPacket<MAX_TOPIC_NAME_LENGTH, MAX_PAYLOAD_SIZE>,
    )
        requires
            ids_unique(b.sessions),
        ensures
            ({
                let (r, after) = Self::on_publish(b, session_id, p);
                let subs = subscribers_for(b.topics, text_bytes(p.topic_name@), Self::sub_limit());
                r is Ok ==> forall|x: u128| #[trigger] tx_of(after.sessions, x) == {
                    let copied = if subs.contains(x) {
                        tx_of(b.sessions, x).push(Some(Packet::Publish(p)))
                    } else {
                        tx_of(b.sessions, x)
                    };
                    if x == session_id && p.qos != QoS::AtMostOnce && p.packet_id is Some {
                        copied.push(Some(Packet::PubAck(PubAckPacket { packet_id: p.packet_id.unwrap() })))
                    } else {
                        copied
                    }
                }
            }),
    {
        let subs = subscribers_for(b.topics, text_bytes(p.topic_name@), Self::sub_limit());
        crate::topics::lemma_get_subscribers_law(b.topics, text_bytes(p.topic_name@), Self::sub_limit());
        Self::lemma_forward_delivers(b.sessions, subs, Packet::Publish(p));
        let (r1, s1) = Self::forward(b.sessions, subs, Packet::Publish(p));
        if r1 is Ok && p.qos != QoS::AtMostOnce && p.packet_id is Some {
            let ack = Packet::PubAck(PubAckPacket { packet_id: p.packet_id.unwrap() });
            Self::lemma_send_tx(s1, session_id, ack);
        }
    }

    proof fn lemma_send_keeps_rx(
        v: Seq<SessionView<MAX_TOPIC_NAME_LENGTH, MAX_PAYLOAD_SIZE>>,
        session_id: u128,
        packet: Packet<MAX_TOPIC_NAME_LENGTH, MAX_PAYLOAD_SIZE>,
    )
        ensures
            same_rx(v, Self::send(v, session_id, packet).1),
    {
        let w = Self::send(v, session_id, packet).1;
        if let Some(i) = session_index(v, session_id) {
            assert forall|k: int| 0 <= k < v.len() implies v[k].session_id == w[k].session_id
                && v[k].rx_queue == w[k].rx_queue by {
                if k == i {
                }
            }
        }
    }

    proof fn lemma_forward_keeps_rx(
        v: Seq<SessionView<MAX_TOPIC_NAME_LENGTH, MAX_PAYLOAD_SIZE>>,
        ids: Seq<u128>,
        packet: Packet<MAX_TOPIC_NAME_LENGTH, MAX_PAYLOAD_SIZE>,
    )
        ensures
            same_rx(v, Self::forward(v, ids, packet).1),
        decreases ids.len(),
    {
        if ids.len() > 0 {
            let v1 = Self::send(v, ids[0], packet).1;
            Self::lemma_send_keeps_rx(v, ids[0], packet);
            if Self::send(v, ids[0], packet).0 is Ok {
                Self::lemma_forward_keeps_rx(v1, ids.drop_first(), packet);
                lemma_same_rx_trans(v, v1, Self::forward(v1, ids.drop_first(), packet).1);
            }
        }
    }

    /// Handling a packet changes no receive queue, and neither adds nor removes sessions.
    pub proof fn lemma_on_packet_keeps_rx(
        b: BrokerView<MAX_TOPIC_NAME_LENGTH, MAX_PAYLOAD_SIZE>,
        session_id: u128,
        packet: Packet<MAX_TOPIC_NAME_LENGTH, MAX_PAYLOAD_SIZE>,
    )
        ensures
            same_rx(b.sessions, Self::on_packet(b, session_id, packet).1.sessions),
    {
        let v = b.sessions;
        match packet {
            Packet::Connect(c) => {
                let f1 = |s: SessionView<MAX_TOPIC_NAME_LENGTH, MAX_PAYLOAD_SIZE>|
                    SessionView { client_id: Some(c.client_id), ..s };
                let f2 = |s: SessionView<MAX_TOPIC_NAME_LENGTH, MAX_PAYLOAD_SIZE>|
                    SessionView { keep_alive_secs: c.keep_alive, ..s };
                let f3 = |s: SessionView<MAX_TOPIC_NAME_LENGTH, MAX_PAYLOAD_SIZE>|
                    SessionView { state: SessionState::Connected, ..s };
                let s1 = if c.client_id@.len() > 0 {
                    update_session(v, session_id, f1).1
                } else {
                    v
                };
                if c.client_id@.len() > 0 {
                    lemma_update_keeps_rx(v, session_id, f1);
                } else {
                    assert(same_rx(v, v));
                }
                let s2 = update_session(s1, session_id, f2).1;
                lemma_update_keeps_rx(s1, session_id, f2);
                lemma_same_rx_trans(v, s1, s2);
                let s3 = update_session(s2, session_id, f3).1;
                lemma_update_keeps_rx(s2, session_id, f3);
                lemma_same_rx_trans(v, s2, s3);
                let s4 = Self::send(s3, session_id, Packet::ConnAck(connack_accepted())).1;
                Self::lemma_send_keeps_rx(s3, session_id, Packet::ConnAck(connack_accepted()));
                lemma_same_rx_trans(v, s3, s4);
            },
            Packet::Publish(p) => {
                let subs = subscribers_for(b.topics, text_bytes(p.topic_name@), Self::sub_limit());
                let s1 = Self::forward(v, subs, Packet::Publish(p)).1;
                Self::lemma_forward_keeps_rx(v, subs, Packet::Publish(p));
                if p.qos != QoS::AtMostOnce && p.packet_id is Some {
                    let pa = Packet::PubAck(PubAckPacket { packet_id: p.packet_id.unwrap() });
                    Self::lemma_send_keeps_rx(s1, session_id, pa);
                    lemma_same_rx_trans(v, s1, Self::send(s1, session_id, pa).1);
                }
            },
            Packet::Subscribe(p) => {
                Self::lemma_send_keeps_rx(
                    v,
                    session_id,
                    Packet::SubAck(SubAckPacket { packet_id: p.packet_id, granted_qos: p.requested_qos }),
                );
            },
            Packet::PingReq(_) => {
                Self::lemma_send_keeps_rx(v, session_id, Packet::PingResp(PingRespPacket));
            },
            Packet::Disconnect(_) => {
                lemma_update_keeps_rx(
                    v,
                    session_id,
                    |s: SessionView<MAX_TOPIC_NAME_LENGTH, MAX_PAYLOAD_SIZE>|
                        SessionView { state: SessionState::Disconnected, ..s },
                );
            },
            _ => {
                assert(same_rx(v, v));
            },
        }
    }

    fn handle_connect(&mut self, session_id: u128, connect: &ConnectPacket<MAX_TOPIC_NAME_LENGTH, MAX_PAYLOAD_SIZE>) -> (r: Result<
        (),
        BrokerError,
    >)
        ensures
            r == Self::on_connect(old(self)@, session_id, *connect).0,
            final(self)@ == Self::on_connect(old(self)@, session_id, *connect).1,
    {
        if !connect.client_id.as_heapless().is_empty() {
            if let Err(e) = self.sessions.update_client_id(session_id, connect.client_id) {
                return Err(e);
            }
        }
        if let Err(e) = self.sessions.update_keep_alive(session_id, connect.keep_alive) {
            return Err(e);
        }
        if let Err(e) = self.sessions.mark_connected(session_id) {
            return Err(e);
        }
        let connack = Packet::ConnAck(ConnAckPacket::default());
        self.sessions.queue_tx_packet(session_id, connack)
    }

    fn handle_publish(&mut self, session_id: u128, publish: &PublishPacket<MAX_TOPIC_NAME_LENGTH, MAX_PAYLOAD_SIZE>) -> (r: Result<
        (),
        BrokerError,
    >)
        ensures
            r == Self::on_publish(old(self)@, session_id, *publish).0,
            final(self)@ == Self::on_publish(old(self)@, session_id, *publish).1,
    {
        let ghost b0 = self@;
        let subscribers = self.topics.get_subscribers(&publish.topic_name);
        let ghost subs = subscribers@;
        let ghost packet = Packet::Publish(*publish);
        let n = subscribers.len();
        let mut k: usize = 0;
        assert(subs.skip(0) =~= subs);
        while k < n
            invariant
                n == subs.len(),
                subs == subscribers@,
                k <= n,
                packet == Packet::Publish(*publish),
                b0 == old(self)@,
                self@.topics == b0.topics,
                subs == subscribers_for(b0.topics, text_bytes(publish.topic_name@), Self::sub_limit()),
                Self::forward(self@.sessions, subs.skip(k as int), packet) == Self::forward(
                    b0.sessions,
                    subs,
                    packet,
                ),
            decreases n - k,
        {
            let id = subscribers.get_copy(k);
            assert(subs.skip(k as int)[0] == id);
            assert(subs.skip(k as int).drop_first() =~= subs.skip(k + 1));
            let ghost cur = self@.sessions;
            let sent = self.sessions.queue_tx_packet(id, Packet::Publish(*publish));
            proof {
                let rest = subs.skip(k as int);
                assert(rest.len() > 0);
                assert(Self::forward(cur, rest, packet) == (if Self::send(cur, id, packet).0 is Err {
                    Self::send(cur, id, packet)
                } else {
                    Self::forward(Self::send(cur, id, packet).1, rest.drop_first(), packet)
                }));
            }
            if let Err(e) = sent {
                return Err(e);
            }
            k = k + 1;
        }
        assert(subs.skip(n as int) =~= Seq::<u128>::empty());
        if publish.qos != QoS::AtMostOnce {
            if let Some(packet_id) = publish.packet_id {
                let puback = Packet::PubAck(PubAckPacket { packet_id });
                return self.sessions.queue_tx_packet(session_id, puback);
            }
        }
        Ok(())
    }

    fn handle_subscribe(&mut self, session_id: u128, subscribe: &SubscribePacket<MAX_TOPIC_NAME_LENGTH>) -> (r: Result<
        (),
        BrokerError,
    >)
        ensures
            r == Self::on_subscribe(old(self)@, session_id, *subscribe).0,
            final(self)@ == Self::on_subscribe(old(self)@, session_id, *subscribe).1,
    {
        if let Err(e) = self.topics.subscribe(session_id, subscribe.topic_filter) {
            return Err(e);
        }
        let suback = SubAckPacket { packet_id: subscribe.packet_id, granted_qos: subscribe.requested_qos };
        self.sessions.queue_tx_packet(session_id, Packet::SubAck(suback))
    }

    fn handle_pingreq(&mut self, session_id: u128) -> (r: Result<(), BrokerError>)
        ensures
            r == Self::send(old(self)@.sessions, session_id, Packet::PingResp(PingRespPacket)).0,
            final(self)@ == (BrokerView {
                sessions: Self::send(old(self)@.sessions, session_id, Packet::PingResp(PingRespPacket)).1,
                ..old(self)@
            }),
    {
        self.sessions.queue_tx_packet(session_id, Packet::PingResp(PingRespPacket))
    }

    fn handle_disconnect(&mut self, session_id: u128) -> (r: Result<(), BrokerError>)
        ensures
            r == Self::on_packet(old(self)@, session_id, Packet::Disconnect(crate::protocol::packets::DisconnectPacket)).0,
            final(self)@ == Self::on_packet(old(self)@, session_id, Packet::Disconnect(crate::protocol::packets::DisconnectPacket)).1,
    {
        self.mark_session_disconnected(session_id)
    }

    fn handle_packet(&mut self, session_id: u128, packet: Packet<MAX_TOPIC_NAME_LENGTH, MAX_PAYLOAD_SIZE>) -> (r: Result<
        (),
        BrokerError,
    >)
        ensures
            r == Self::on_packet(old(self)@, session_id, packet).0,
            final(self)@ == Self::on_packet(old(self)@, session_id, packet).1,
    {
        match packet {
            Packet::Connect(connect) => self.handle_connect(session_id, &connect),
            Packet::Publish(publish) => self.handle_publish(session_id, &publish),
            Packet::Subscribe(subscribe) => self.handle_subscribe(session_id, &subscribe),
            Packet::PingReq(_) => self.handle_pingreq(session_id),
            Packet::Disconnect(_) => self.handle_disconnect(session_id),
            _ => Ok(()),
        }
    }

    fn drain_session(&mut self, session_id: u128) -> (r: Result<(), BrokerError>)
        ensures
            r == Self::drain(old(self)@, session_id, rx_of(old(self)@.sessions, session_id).len()).0,
            final(self)@ == Self::drain(old(self)@, session_id, rx_of(old(self)@.sessions, session_id).len()).1,
    {
        let ghost b0 = self@;
        let ghost f0 = rx_of(b0.sessions, session_id).len();
        loop
            invariant
                b0 == old(self)@,
                f0 == rx_of(b0.sessions, session_id).len(),
                Self::drain(self@, session_id, rx_of(self@.sessions, session_id).len()) == Self::drain(
                    b0,
                    session_id,
                    f0,
                ),
            decreases rx_of(self@.sessions, session_id).len(),
        {
            let ghost b = self@;
            let ghost f = rx_of(b.sessions, session_id).len();
            let wf = self.sessions.well_formed();
            proof {
                lemma_dequeue_rx(b.sessions, session_id);
            }
            match self.sessions.dequeue_rx_packet(session_id) {
                Err(e) => {
                    return Err(e);
                },
                Ok(None) => {
                    return Ok(());
                },
                Ok(Some(packet)) => {
                    let ghost b1 = self@;
                    let handled = self.handle_packet(session_id, packet);
                    proof {
                        Self::lemma_on_packet_keeps_rx(b1, session_id, packet);
                        lemma_same_rx_of(b1.sessions, self@.sessions, session_id);
                        assert(f > 0);
                        assert(rx_of(self@.sessions, session_id).len() == f - 1);
                    }
                    if let Err(e) = handled {
                        return Err(e);
                    }
                },
            }
        }
    }

    /// Handles every packet waiting in the receive queue of each session, session by
    /// session in registration order; stops at the first failure.
    pub fn process_all_session_packets(&mut self) -> (r: Result<(), BrokerError>)
        ensures
            r == Self::drain_all(
                old(self)@,
                ids_where(old(self)@.sessions, |s: SessionView<MAX_TOPIC_NAME_LENGTH, MAX_PAYLOAD_SIZE>| true),
            ).0,
            final(self)@ == Self::drain_all(
                old(self)@,
                ids_where(old(self)@.sessions, |s: SessionView<MAX_TOPIC_NAME_LENGTH, MAX_PAYLOAD_SIZE>| true),
            ).1,
            r is Ok && (forall|i: int| 0 <= i < old(self)@.sessions.len() ==> Self::all_packets(
                #[trigger] old(self)@.sessions[i].rx_queue,
            )) ==> forall|i: int| 0 <= i < old(self)@.sessions.len() ==> #[trigger] rx_of(
                final(self)@.sessions,
                old(self)@.sessions[i].session_id,
            ).len() == 0,
    {
        let ghost b0 = self@;
        let ghost ids = ids_where(b0.sessions, |s: SessionView<MAX_TOPIC_NAME_LENGTH, MAX_PAYLOAD_SIZE>| true);
        let session_ids = self.get_all_sessions();
        let wf = self.sessions.well_formed();
        proof {
            lemma_ids_where_len(b0.sessions, |s: SessionView<MAX_TOPIC_NAME_LENGTH, MAX_PAYLOAD_SIZE>| true);
        }
        let mut k: usize = 0;
        assert(ids.skip(0) =~= ids);
        while k < MAX_SESSIONS
            invariant
                b0 == old(self)@,
                ids == ids_where(b0.sessions, |s: SessionView<MAX_TOPIC_NAME_LENGTH, MAX_PAYLOAD_SIZE>| true),
                session_ids@ == padded(ids, MAX_SESSIONS as nat),
                ids.len() <= MAX_SESSIONS,
                k <= MAX_SESSIONS,
                Self::drain_all(self@, if k <= ids.len() { ids.skip(k as int) } else { Seq::empty() })
                    == Self::drain_all(b0, ids),
            decreases MAX_SESSIONS - k,
        {
            let slot = session_ids[k];
            if let Some(session_id) = slot {
                let ghost rest = ids.skip(k as int);
                assert(k < ids.len());
                assert(rest[0] == session_id);
                assert(rest.drop_first() =~= ids.skip(k + 1));
                if let Err(e) = self.drain_session(session_id) {
                    return Err(e);
                }
            } else {
                assert(k >= ids.len());
            }
            k = k + 1;
        }
        assert(ids.skip(ids.len() as int) =~= Seq::<u128>::empty());
        proof {
            if forall|i: int| 0 <= i < b0.sessions.len() ==> Self::all_packets(#[trigger] b0.sessions[i].rx_queue) {
                Self::lemma_process_all_drains(b0);
                assert(self@ == Self::drain_all(b0, ids).1);
            }
        }
        Ok(())
    }

    /// The sessions that have packets waiting to be sent, in registration order.
    pub fn get_sessions_with_pending_packets(&self) -> (r: HeaplessVec<u128, MAX_SESSIONS>)
        ensures
            r@ == ids_where(
                self@.sessions,
                |s: SessionView<MAX_TOPIC_NAME_LENGTH, MAX_PAYLOAD_SIZE>| s.tx_queue.len() > 0,
            ),
    {
        let ghost v = self@.sessions;
        let ghost all = ids_where(v, |s: SessionView<MAX_TOPIC_NAME_LENGTH, MAX_PAYLOAD_SIZE>| true);
        let ghost pend = |s: SessionView<MAX_TOPIC_NAME_LENGTH, MAX_PAYLOAD_SIZE>| s.tx_queue.len() > 0;
        let wf = self.sessions.well_formed();
        let session_ids = self.get_all_sessions();
        proof {
            lemma_ids_where_len(v, |s: SessionView<MAX_TOPIC_NAME_LENGTH, MAX_PAYLOAD_SIZE>| true);
            lemma_ids_where_all(v);
        }
        let mut pending: HeaplessVec<u128, MAX_SESSIONS> = HeaplessVec::new();
        let mut k: usize = 0;
        while k < MAX_SESSIONS
            invariant
                v == self@.sessions,
                ids_unique(v),
                all == ids_where(v, |s: SessionView<MAX_TOPIC_NAME_LENGTH, MAX_PAYLOAD_SIZE>| true),
                all.len() == v.len(),
                forall|j: int| 0 <= j < v.len() ==> #[trigger] all[j] == v[j].session_id,
                pend == (|s: SessionView<MAX_TOPIC_NAME_LENGTH, MAX_PAYLOAD_SIZE>| s.tx_queue.len() > 0),
                session_ids@ == padded(all, MAX_SESSIONS as nat),
                v.len() <= MAX_SESSIONS,
                v.len() <= HeaplessVec::<u128, MAX_SESSIONS>::limit(),
                k <= MAX_SESSIONS,
                pending@ == ids_where(v.take(if k <= v.len() { k as int } else { v.len() as int }), pend),
                pending@.len() <= k,
            decreases MAX_SESSIONS - k,
        {
            let slot = session_ids[k];
            if let Some(session_id) = slot {
                assert(k < v.len());
                proof {
                    lemma_index_at(v, k as int);
                    lemma_ids_where_len(v.take(k as int), pend);
                }
                assert(v.take(k + 1).drop_last() =~= v.take(k as int));
                if self.sessions.has_pending_tx_packets(session_id) {
                    let pushed = pending.push(session_id);
                    assert(pushed is Ok);
                }
            }
            k = k + 1;
        }
        assert(v.take(v.len() as int) =~= v);
        pending
    }

    /// Takes every packet waiting to be sent to session `session_id`, oldest first, until
    /// the send queue is empty or yields an empty slot.
    pub fn take_outgoing(&mut self, session_id: u128) -> (r: Vec<Packet<MAX_TOPIC_NAME_LENGTH, MAX_PAYLOAD_SIZE>>)
        ensures
            final(self)@.topics == old(self)@.topics,
            r@ == outgoing(tx_of(old(self)@.sessions, session_id)).0,
            final(self)@.sessions == with_tx(
                old(self)@.sessions,
                session_id,
                outgoing(tx_of(old(self)@.sessions, session_id)).1,
            ),
    {
        let _ = self.sessions.well_formed();
        let ghost v0 = self@.sessions;
        let ghost q0 = tx_of(v0, session_id);
        let ghost mut q = q0;
        let mut packets: Vec<Packet<MAX_TOPIC_NAME_LENGTH, MAX_PAYLOAD_SIZE>> = Vec::new();
        proof {
            if let Some(i) = session_index(v0, session_id) {
                assert(with_tx(v0, session_id, q0) =~= v0);
            }
        }
        loop
            invariant_except_break
                self@.topics == old(self)@.topics,
                ids_unique(v0),
                v0 == old(self)@.sessions,
                q0 == tx_of(v0, session_id),
                self@.sessions == with_tx(v0, session_id, q),
                packets@ + outgoing(q).0 == outgoing(q0).0,
                outgoing(q).1 == outgoing(q0).1,
            ensures
                self@.topics == old(self)@.topics,
                packets@ == outgoing(q0).0,
                self@.sessions == with_tx(v0, session_id, outgoing(q0).1),
            decreases q.len(),
        {
            proof {
                if session_index(v0, session_id) is Some {
                    lemma_dequeue_with_tx(v0, session_id, q);
                }
            }
            match self.dequeue_packet_to_send_to_client(session_id) {
                Ok(Some(p)) => {
                    proof {
                        assert(packets@.push(p) + outgoing(q.drop_first()).0 =~= packets@ + outgoing(q).0);
                        q = q.drop_first();
                    }
                    packets.push(p);
                },
                _ => {
                    proof {
                        if session_index(v0, session_id) is None {
                            assert(q0 =~= Seq::<Option<Packet<MAX_TOPIC_NAME_LENGTH, MAX_PAYLOAD_SIZE>>>::empty());
                        }
                        assert(packets@ + Seq::<Packet<MAX_TOPIC_NAME_LENGTH, MAX_PAYLOAD_SIZE>>::empty() =~= packets@);
                    }
                    break;
                },
            }
        }
        packets
    }

    /// Queues a packet received from session `session_id` at `current_time` and handles
    /// every waiting packet; when either step fails, the session is marked disconnected.
    pub fn handle_client_packet(
        &mut self,
        session_id: u128,
        packet: Packet<MAX_TOPIC_NAME_LENGTH, MAX_PAYLOAD_SIZE>,
        current_time: u128,
    ) -> (r: Result<(), BrokerError>)
        ensures
            ({
                let (r1, b1) = broker_received(
                    old(self)@,
                    session_id,
                    packet,
                    current_time,
                    Self::queue_limit(),
                    QUEUE_SIZE,
                );
                let (r2, b2) = if r1 is Ok {
                    Self::drain_all(
                        b1,
                        ids_where(b1.sessions, |s: SessionView<MAX_TOPIC_NAME_LENGTH, MAX_PAYLOAD_SIZE>| true),
                    )
                } else {
                    (r1, b1)
                };
                &&& r == r2
                &&& final(self)@ == if r2 is Err {
                    broker_disconnected(b2, session_id)
                } else {
                    b2
                }
            }),
    {
        let ghost b0 = self@;
        let result = match self.queue_packet_received_from_client(session_id, packet, current_time) {
            Ok(()) => self.process_all_session_packets(),
            Err(e) => Err(e),
        };
        if result.is_err() {
            let _ = self.mark_session_disconnected(session_id);
        }
        result
    }

    /// A broker with no sessions and no subscriptions.
    pub fn new() -> (r: Self)
        ensures
            r@ == (BrokerView::<MAX_TOPIC_NAME_LENGTH, MAX_PAYLOAD_SIZE> {
                topics: Seq::empty(),
                sessions: Seq::empty(),
            }),
    {
        PicoBroker { topics: TopicRegistry::new(), sessions: SessionRegistry::new() }
    }

    /// Registers a new session.
    pub fn register_new_session(&mut self, session_id: u128, keep_alive_secs: u16, current_time: u128) -> (r: Result<
        (),
        BrokerError,
    >)
        ensures
            final(self)@.topics == old(self)@.topics,
            r == SessionRegistry::<
                MAX_TOPIC_NAME_LENGTH,
                MAX_PAYLOAD_SIZE,
                QUEUE_SIZE,
                MAX_SESSIONS,
                MAX_TOPICS,
                MAX_SUBSCRIBERS_PER_TOPIC,
            >::after_register(old(self)@.sessions, session_id, keep_alive_secs, current_time).0,
            final(self)@.sessions == SessionRegistry::<
                MAX_TOPIC_NAME_LENGTH,
                MAX_PAYLOAD_SIZE,
                QUEUE_SIZE,
                MAX_SESSIONS,
                MAX_TOPICS,
                MAX_SUBSCRIBERS_PER_TOPIC,
            >::after_register(old(self)@.sessions, session_id, keep_alive_secs, current_time).1,
    {
        self.sessions.register_new_session(session_id, keep_alive_secs, current_time)
    }

    /// Marks a session disconnected.
    pub fn mark_session_disconnected(&mut self, session_id: u128) -> (r: Result<(), BrokerError>)
        ensures
            final(self)@.topics == old(self)@.topics,
            r == update_session(
                old(self)@.sessions,
                session_id,
                |s: SessionView<MAX_TOPIC_NAME_LENGTH, MAX_PAYLOAD_SIZE>|
                    SessionView { state: SessionState::Disconnected, ..s },
            ).0,
            final(self)@.sessions == update_session(
                old(self)@.sessions,
                session_id,
                |s: SessionView<MAX_TOPIC_NAME_LENGTH, MAX_PAYLOAD_SIZE>|
                    SessionView { state: SessionState::Disconnected, ..s },
            ).1,
    {
        self.sessions.mark_disconnected(session_id)
    }

    /// Removes a session and all its subscriptions; true when the session was there.
    pub fn remove_session(&mut self, session_id: u128) -> (r: bool)
        ensures
            final(self)@.topics == crate::topics::without_session(old(self)@.topics, session_id),
            r == session_index(old(self)@.sessions, session_id) is Some,
            session_index(old(self)@.sessions, session_id) matches Some(i) ==> final(self)@.sessions
                == old(self)@.sessions.remove(i),
            session_index(old(self)@.sessions, session_id) is None ==> final(self)@.sessions == old(
                self,
            )@.sessions,
            forall|i: int| 0 <= i < final(self)@.topics.len() ==> !(#[trigger] final(self)@.topics[i]).subscribers.contains(session_id),
    {
        self.topics.unregister_all(session_id);
        self.sessions.remove_session(session_id)
    }

    /// The broker's invariant holds: no two sessions share an identifier, and the
    /// subscriptions are well formed, within the topic limit.
    pub fn well_formed(&self) -> (r: bool)
        ensures
            r,
            ids_unique(self@.sessions),
            crate::topics::registry_wf(self@.topics, Self::sub_limit()),
            self@.topics.len() <= MAX_TOPICS,
    {
        let a = self.sessions.well_formed();
        let b = self.topics.well_formed();
        a && b
    }

    /// The identifiers of all sessions, in order, in the first slots.
    pub fn get_all_sessions(&self) -> (r: [Option<u128>; MAX_SESSIONS])
        ensures
            r@ == padded(
                ids_where(self@.sessions, |s: SessionView<MAX_TOPIC_NAME_LENGTH, MAX_PAYLOAD_SIZE>| true),
                MAX_SESSIONS as nat,
            ),
    {
        self.sessions.get_all_sessions()
    }

    /// The identifiers of the sessions whose keep-alive has run out at `current_time`.
    pub fn get_expired_sessions(&self, current_time: u128) -> (r: [Option<u128>; MAX_SESSIONS])
        ensures
            r@ == padded(
                ids_where(
                    self@.sessions,
                    |s: SessionView<MAX_TOPIC_NAME_LENGTH, MAX_PAYLOAD_SIZE>|
                        crate::session::session_expired(s, current_time),
                ),
                MAX_SESSIONS as nat,
            ),
    {
        self.sessions.get_expired_sessions(current_time)
    }

    /// The identifiers of the disconnected sessions.
    pub fn get_disconnected_sessions(&self) -> (r: [Option<u128>; MAX_SESSIONS])
        ensures
            r@ == padded(
                ids_where(
                    self@.sessions,
                    |s: SessionView<MAX_TOPIC_NAME_LENGTH, MAX_PAYLOAD_SIZE>|
                        s.state == SessionState::Disconnected,
                ),
                MAX_SESSIONS as nat,
            ),
    {
        self.sessions.get_disconnected_sessions()
    }

    /// Records activity of a session and queues a packet it sent.
    pub fn queue_packet_received_from_client(
        &mut self,
        session_id: u128,
        packet: Packet<MAX_TOPIC_NAME_LENGTH, MAX_PAYLOAD_SIZE>,
        current_time: u128,
    ) -> (r: Result<(), BrokerError>)
        ensures
            final(self)@.topics == old(self)@.topics,
            ({
                let (r1, s1) = update_session(
                    old(self)@.sessions,
                    session_id,
                    |s: SessionView<MAX_TOPIC_NAME_LENGTH, MAX_PAYLOAD_SIZE>|
                        SessionView { last_activity: current_time, ..s },
                );
                if r1 is Err {
                    r == r1 && final(self)@.sessions == s1
                } else {
                    r == queue_packet(s1, session_id, packet, true, Self::queue_limit(), QUEUE_SIZE).0
                        && final(self)@.sessions == queue_packet(
                        s1,
                        session_id,
                        packet,
                        true,
                        Self::queue_limit(),
                        QUEUE_SIZE,
                    ).1
                }
            }),
    {
        if let Err(e) = self.sessions.update_session_activity(session_id, current_time) {
            return Err(e);
        }
        self.sessions.queue_rx_packet(session_id, packet)
    }

    /// Takes the oldest packet to send to a session.
    pub fn dequeue_packet_to_send_to_client(&mut self, session_id: u128) -> (r: Result<
        Option<Packet<MAX_TOPIC_NAME_LENGTH, MAX_PAYLOAD_SIZE>>,
        BrokerError,
    >)
        ensures
            final(self)@.topics == old(self)@.topics,
            r == dequeue_packet(old(self)@.sessions, session_id, false).0,
            final(self)@.sessions == dequeue_packet(old(self)@.sessions, session_id, false).1,
    {
        self.sessions.dequeue_tx_packet(session_id)
    }
}

impl<
    const MAX_TOPIC_NAME_LENGTH: usize,
    const MAX_PAYLOAD_SIZE: usize,
    const QUEUE_SIZE: usize,
    const MAX_SESSIONS: usize,
    const MAX_TOPICS: usize,
    const MAX_SUBSCRIBERS_PER_TOPIC: usize,
> Default for PicoBroker<
    MAX_TOPIC_NAME_LENGTH,
    MAX_PAYLOAD_SIZE,
    QUEUE_SIZE,
    MAX_SESSIONS,
    MAX_TOPICS,
    MAX_SUBSCRIBERS_PER_TOPIC,
> {
    fn default() -> (r: Self)
        ensures
            r@ == (BrokerView::<MAX_TOPIC_NAME_LENGTH, MAX_PAYLOAD_SIZE> {
                topics: Seq::empty(),
                sessions: Seq::empty(),
            }),
    {
        Self::new()
    }
}

} // verus!
