//! Which session each notification channel belongs to.
use vstd::prelude::*;
use crate::server::buffer_manager::first_index_of;

verus! {

/// The session identifier held by each of `MAX_SESSIONS` notification channels; zero marks
/// a channel no session holds.
#[derive(Debug, Clone, Copy)]
pub struct SessionSlots<const MAX_SESSIONS: usize> {
    ids: [u128; MAX_SESSIONS],
}

impl<const MAX_SESSIONS: usize> View for SessionSlots<MAX_SESSIONS> {
    type V = Seq<u128>;

    /// The identifier held by each channel, by index.
    closed spec fn view(&self) -> Seq<u128> {
        self.ids@
    }
}

impl<const MAX_SESSIONS: usize> SessionSlots<MAX_SESSIONS> {
    /// Every channel free.
    pub fn new() -> (r: Self)
        ensures
            r@ == Seq::new(MAX_SESSIONS as nat, |i: int| 0u128),
    {
        let r = SessionSlots { ids: [0u128; MAX_SESSIONS] };
        assert(r@ =~= Seq::new(MAX_SESSIONS as nat, |i: int| 0u128));
        r
    }

    /// Gives channel `channel_idx` to session `session_id`; an index past the last channel
    /// changes nothing.
    pub fn register_session(&mut self, channel_idx: usize, session_id: u128)
        ensures
            channel_idx < MAX_SESSIONS ==> final(self)@ == old(self)@.update(channel_idx as int, session_id),
            channel_idx >= MAX_SESSIONS ==> final(self)@ == old(self)@,
    {
        if channel_idx < MAX_SESSIONS {
            self.ids[channel_idx] = session_id;
        }
    }

    /// Frees channel `channel_idx`; an index past the last channel changes nothing.
    pub fn unregister_session(&mut self, channel_idx: usize)
        ensures
            channel_idx < MAX_SESSIONS ==> final(self)@ == old(self)@.update(channel_idx as int, 0),
            channel_idx >= MAX_SESSIONS ==> final(self)@ == old(self)@,
    {
        if channel_idx < MAX_SESSIONS {
            self.ids[channel_idx] = 0;
        }
    }

    /// The first channel held by session `session_id`, the one to notify.
    pub fn channel_of(&self, session_id: u128) -> (r: Option<usize>)
        ensures
            r matches Some(i) ==> first_index_of(self@, session_id) == Some(i as int),
            r is None ==> first_index_of(self@, session_id) is None,
    {
        let mut i: usize = 0;
        while i < MAX_SESSIONS
            invariant
                self@.len() == MAX_SESSIONS,
                i <= MAX_SESSIONS,
                forall|j: int| 0 <= j < i ==> #[trigger] self@[j] != session_id,
            decreases MAX_SESSIONS - i,
        {
            if self.ids[i] == session_id {
                proof {
                    let ids = self@;
                    let k = choose|k: int| 0 <= k < ids.len() && ids[k] == session_id && (forall|j: int| 0 <= j < k ==> ids[j] != session_id);
                    if k < i {
                        assert(ids[k] != session_id);
                    } else if k > i {
                        assert(ids[i as int] != session_id);
                    }
                }
                return Some(i);
            }
            i = i + 1;
        }
        None
    }
}

} // verus!
