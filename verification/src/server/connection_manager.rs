//! The stream of each session: stored, looked up, replaced and released.
use vstd::prelude::*;
use crate::server::buffer_manager::{first_index_of, lemma_first_index_props};

verus! {

/// The session identifiers of the slots of `v`, in order.
pub open spec fn slot_ids<S>(v: Seq<(u128, Option<S>)>) -> Seq<u128> {
    v.map_values(|e: (u128, Option<S>)| e.0)
}

/// The first slot of `v` that holds no stream.
pub open spec fn first_free<S>(v: Seq<(u128, Option<S>)>) -> Option<int> {
    if exists|i: int| 0 <= i < v.len() && v[i].1 is None && (forall|j: int| 0 <= j < i ==> v[j].1 is Some) {
        Some(choose|i: int| 0 <= i < v.len() && v[i].1 is None && (forall|j: int| 0 <= j < i ==> v[j].1 is Some))
    } else {
        None
    }
}

/// The number of slots of `v` that hold a stream.
pub open spec fn active_count<S>(v: Seq<(u128, Option<S>)>) -> nat
    decreases v.len(),
{
    if v.len() == 0 {
        0
    } else {
        active_count(v.drop_last()) + (if v.last().1 is Some { 1nat } else { 0nat })
    }
}

proof fn lemma_first_free_at<S>(v: Seq<(u128, Option<S>)>, i: int)
    requires
        0 <= i < v.len(),
        v[i].1 is None,
        forall|j: int| 0 <= j < i ==> v[j].1 is Some,
    ensures
        first_free(v) == Some(i),
{
    let k = choose|k: int| 0 <= k < v.len() && v[k].1 is None && (forall|j: int| 0 <= j < k ==> v[j].1 is Some);
    if k < i {
        assert(v[k].1 is Some);
    } else if k > i {
        assert(v[i].1 is Some);
    }
}

proof fn lemma_first_id_at<S>(v: Seq<(u128, Option<S>)>, id: u128, i: int)
    requires
        0 <= i < v.len(),
        v[i].0 == id,
        forall|j: int| 0 <= j < i ==> v[j].0 != id,
    ensures
        first_index_of(slot_ids(v), id) == Some(i),
{
    let ids = slot_ids(v);
    assert forall|j: int| 0 <= j < i implies ids[j] != id by {
        assert(ids[j] == v[j].0);
    }
    assert(ids[i] == id);
    let k = choose|k: int| 0 <= k < ids.len() && ids[k] == id && (forall|j: int| 0 <= j < k ==> ids[j] != id);
    if k < i {
        assert(ids[k] != id);
    } else if k > i {
        assert(ids[i] != id);
    }
}

/// The streams of all sessions, in slots that are reused once released.
pub struct ConnectionManager<S, const MAX_SESSIONS: usize> {
    streams: Vec<(u128, Option<S>)>,
}

impl<S, const MAX_SESSIONS: usize> View for ConnectionManager<S, MAX_SESSIONS> {
    type V = Seq<(u128, Option<S>)>;

    /// The slots, in the order they were made.
    closed spec fn view(&self) -> Seq<(u128, Option<S>)> {
        self.streams@
    }
}

impl<S, const MAX_SESSIONS: usize> ConnectionManager<S, MAX_SESSIONS> {
    /// The slots after storing `stream` for session `session_id`: the session's own slot is
    /// replaced, or else the first released slot is taken, or else a slot is added while
    /// there is room; with no room the stream is dropped.
    pub open spec fn after_set(v: Seq<(u128, Option<S>)>, session_id: u128, stream: S) -> Seq<(u128, Option<S>)> {
        match first_index_of(slot_ids(v), session_id) {
            Some(i) => v.update(i, (session_id, Some(stream))),
            None => match first_free(v) {
                Some(j) => v.update(j, (session_id, Some(stream))),
                None => if v.len() < MAX_SESSIONS {
                    v.push((session_id, Some(stream)))
                } else {
                    v
                },
            },
        }
    }

    /// A stream stored for a session while there is room for it is the one found for that
    /// session afterwards.
    pub proof fn lemma_set_then_lookup(v: Seq<(u128, Option<S>)>, session_id: u128, stream: S)
        requires
            first_index_of(slot_ids(v), session_id) is Some || first_free(v) is Some || v.len()
                < MAX_SESSIONS,
        ensures
            first_index_of(slot_ids(Self::after_set(v, session_id, stream)), session_id) matches Some(k)
                && Self::after_set(v, session_id, stream)[k] == (session_id, Some(stream)),
    {
        let w = Self::after_set(v, session_id, stream);
        lemma_first_index_props(slot_ids(v), session_id);
        match first_index_of(slot_ids(v), session_id) {
            Some(i) => {
                assert forall|j: int| 0 <= j < i implies w[j].0 != session_id by {
                    assert(slot_ids(v)[j] == v[j].0);
                }
                lemma_first_id_at(w, session_id, i);
            },
            None => {
                assert forall|j: int| 0 <= j < v.len() implies v[j].0 != session_id by {
                    assert(slot_ids(v)[j] == v[j].0);
                }
                match first_free(v) {
                    Some(j) => {
                        lemma_first_id_at(w, session_id, j);
                    },
                    None => {
                        lemma_first_id_at(w, session_id, v.len() as int);
                    },
                }
            },
        }
    }

    /// No slots.
    pub fn new() -> (r: Self)
        ensures
            r@ == Seq::<(u128, Option<S>)>::empty(),
    {
        ConnectionManager { streams: Vec::new() }
    }

    fn find(&self, session_id: u128) -> (r: Option<usize>)
        ensures
            r matches Some(i) ==> first_index_of(slot_ids(self@), session_id) == Some(i as int),
            r is None ==> first_index_of(slot_ids(self@), session_id) is None,
    {
        let n = self.streams.len();
        let mut i: usize = 0;
        while i < n
            invariant
                n == self@.len(),
                i <= n,
                forall|j: int| 0 <= j < i ==> #[trigger] self@[j].0 != session_id,
            decreases n - i,
        {
            if self.streams[i].0 == session_id {
                proof {
                    lemma_first_id_at(self@, session_id, i as int);
                }
                return Some(i);
            }
            i = i + 1;
        }
        proof {
            let ids = slot_ids(self@);
            if exists|k: int| 0 <= k < ids.len() && ids[k] == session_id && (forall|j: int| 0 <= j < k ==> ids[j] != session_id) {
                let k = choose|k: int| 0 <= k < ids.len() && ids[k] == session_id && (forall|j: int| 0 <= j < k ==> ids[j] != session_id);
                assert(ids[k] == self@[k].0);
                assert(self@[k].0 != session_id);
            }
        }
        None
    }

    fn find_free(&self) -> (r: Option<usize>)
        ensures
            r matches Some(i) ==> first_free(self@) == Some(i as int),
            r is None ==> first_free(self@) is None,
    {
        let n = self.streams.len();
        let mut i: usize = 0;
        while i < n
            invariant
                n == self@.len(),
                i <= n,
                forall|j: int| 0 <= j < i ==> (#[trigger] self@[j]).1 is Some,
            decreases n - i,
        {
            if self.streams[i].1.is_none() {
                proof {
                    lemma_first_free_at(self@, i as int);
                }
                return Some(i);
            }
            i = i + 1;
        }
        proof {
            let v = self@;
            if exists|k: int| 0 <= k < v.len() && v[k].1 is None && (forall|j: int| 0 <= j < k ==> v[j].1 is Some) {
                let k = choose|k: int| 0 <= k < v.len() && v[k].1 is None && (forall|j: int| 0 <= j < k ==> v[j].1 is Some);
                assert(v[k].1 is Some);
            }
        }
        None
    }

    /// The stream of session `session_id`, to use in place; none when its first slot has
    /// been released or it has no slot.
    pub fn get_stream_mut(&mut self, session_id: u128) -> (r: Option<&mut S>)
        ensures
            match first_index_of(slot_ids(old(self)@), session_id) {
                Some(i) => match old(self)@[i].1 {
                    Some(s) => r is Some && *r.unwrap() == s && final(self)@ == old(self)@.update(
                        i,
                        (session_id, Some(*final(r.unwrap()))),
                    ),
                    None => r is None && final(self)@ == old(self)@,
                },
                None => r is None && final(self)@ == old(self)@,
            },
    {
        match self.find(session_id) {
            Some(i) => {
                let entry = &mut self.streams[i];
                entry.1.as_mut()
            },
            None => None,
        }
    }

    /// Stores `stream` for session `session_id`.
    pub fn set_stream(&mut self, session_id: u128, stream: S)
        ensures
            final(self)@ == Self::after_set(old(self)@, session_id, stream),
    {
        match self.find(session_id) {
            Some(i) => {
                self.streams.set(i, (session_id, Some(stream)));
            },
            None => match self.find_free() {
                Some(j) => {
                    self.streams.set(j, (session_id, Some(stream)));
                },
                None => {
                    if self.streams.len() < MAX_SESSIONS {
                        self.streams.push((session_id, Some(stream)));
                    }
                },
            },
        }
    }

    /// Releases the stream in the first slot of session `session_id`; false when it has
    /// no slot.
    pub fn remove_session(&mut self, session_id: u128) -> (r: bool)
        ensures
            match first_index_of(slot_ids(old(self)@), session_id) {
                Some(i) => r && final(self)@ == old(self)@.update(i, (session_id, None)),
                None => !r && final(self)@ == old(self)@,
            },
    {
        match self.find(session_id) {
            Some(i) => {
                self.streams.set(i, (session_id, None));
                true
            },
            None => false,
        }
    }

    /// The number of slots that hold a stream.
    pub fn active_stream_count(&self) -> (r: usize)
        ensures
            r == active_count(self@),
    {
        let n = self.streams.len();
        let mut count: usize = 0;
        let mut i: usize = 0;
        while i < n
            invariant
                n == self@.len(),
                i <= n,
                count == active_count(self@.take(i as int)),
                count <= i,
            decreases n - i,
        {
            assert(self@.take(i + 1).drop_last() =~= self@.take(i as int));
            if self.streams[i].1.is_some() {
                count = count + 1;
            }
            i = i + 1;
        }
        assert(self@.take(n as int) =~= self@);
        count
    }
}

impl<S, const MAX_SESSIONS: usize> Default for ConnectionManager<S, MAX_SESSIONS> {
    fn default() -> (r: Self)
        ensures
            r@ == Seq::<(u128, Option<S>)>::empty(),
    {
        Self::new()
    }
}

} // verus!
