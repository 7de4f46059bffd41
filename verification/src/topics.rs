//! Topic names, wildcard matching and the topic subscription registry.
use vstd::prelude::*;
use vstd::string::*;
use vstd::utf8::*;
use crate::protocol::error::ProtocolError;
use crate::error::BrokerError;
use crate::protocol::heapless::{without, HeaplessString, HeaplessVec};
use crate::protocol::text::bytes_equal;

verus! {

/// Topic name
/// Represents an MQTT topic name with a maximum length.
#[derive(Debug, Clone, Copy, PartialEq, Eq, PartialOrd, Ord, Hash)]
pub struct TopicName<const MAX_TOPIC_NAME_LENGTH: usize>(HeaplessString<MAX_TOPIC_NAME_LENGTH>);

impl<const MAX_TOPIC_NAME_LENGTH: usize> View for TopicName<MAX_TOPIC_NAME_LENGTH> {
    type V = Seq<u8>;

    closed spec fn view(&self) -> Seq<u8> {
        self.0@
    }
}

impl<const MAX_TOPIC_NAME_LENGTH: usize> TopicName<MAX_TOPIC_NAME_LENGTH> {
    /// Wraps a string as a topic name.
    pub fn new(name: HeaplessString<MAX_TOPIC_NAME_LENGTH>) -> (r: Self)
        ensures
            r@ == name@,
    {
        TopicName(name)
    }

    /// A topic name holding the bytes of `value`; fails when they do not fit.
    pub fn from_str(value: &str) -> (r: Result<Self, ProtocolError>)
        ensures
            (r is Ok) <==> value.spec_bytes().len() <= HeaplessString::<MAX_TOPIC_NAME_LENGTH>::limit(),
            r matches Ok(t) ==> t@ == value.spec_bytes(),
            r matches Err(e) ==> e == (ProtocolError::TopicNameLengthExceeded {
                max_length: MAX_TOPIC_NAME_LENGTH,
                actual_length: value.spec_bytes().len() as usize,
            }),
    {
        match HeaplessString::from_str(value) {
            Ok(s) => Ok(TopicName(s)),
            Err(_) => Err(
                ProtocolError::TopicNameLengthExceeded {
                    max_length: MAX_TOPIC_NAME_LENGTH,
                    actual_length: value.len(),
                },
            ),
        }
    }

    /// The name as a string.
    pub fn as_heapless(&self) -> (r: &HeaplessString<MAX_TOPIC_NAME_LENGTH>)
        ensures
            r@ == self@,
    {
        &self.0
    }

    /// The name's bytes.
    pub fn as_bytes(&self) -> (r: &[u8])
        ensures
            r@ == self@,
    {
        self.0.as_bytes()
    }

    /// True when both names hold the same bytes.
    pub fn same_as(&self, other: &Self) -> (r: bool)
        ensures
            r == (self@ == other@),
    {
        self.0.same_as(&other.0)
    }
}

impl<const MAX_TOPIC_NAME_LENGTH: usize> Default for TopicName<MAX_TOPIC_NAME_LENGTH> {
    fn default() -> (r: Self)
        ensures
            r@ == Seq::<u8>::empty(),
    {
        TopicName(HeaplessString::new())
    }
}

impl<const MAX_TOPIC_NAME_LENGTH: usize> From<HeaplessString<MAX_TOPIC_NAME_LENGTH>> for TopicName<MAX_TOPIC_NAME_LENGTH> {
    fn from(name: HeaplessString<MAX_TOPIC_NAME_LENGTH>) -> (r: Self) {
        TopicName(name)
    }
}

impl<const MAX_TOPIC_NAME_LENGTH: usize> vstd::std_specs::convert::FromSpecImpl<HeaplessString<MAX_TOPIC_NAME_LENGTH>> for TopicName<MAX_TOPIC_NAME_LENGTH> {
    closed spec fn obeys_from_spec() -> bool {
        true
    }

    closed spec fn from_spec(name: HeaplessString<MAX_TOPIC_NAME_LENGTH>) -> Self {
        TopicName(name)
    }
}

impl<'a, const MAX_TOPIC_NAME_LENGTH: usize> TryFrom<&'a str> for TopicName<MAX_TOPIC_NAME_LENGTH> {
    type Error = ProtocolError;

    fn try_from(value: &'a str) -> (r: Result<Self, ProtocolError>)
        ensures
            (r is Ok) <==> value.spec_bytes().len() <= HeaplessString::<MAX_TOPIC_NAME_LENGTH>::limit(),
            r matches Ok(t) ==> t@ == value.spec_bytes(),
            r matches Err(e) ==> e == (ProtocolError::TopicNameLengthExceeded {
                max_length: MAX_TOPIC_NAME_LENGTH,
                actual_length: value.spec_bytes().len() as usize,
            }),
    {
        Self::from_str(value)
    }
}

impl<'a, const MAX_TOPIC_NAME_LENGTH: usize> vstd::std_specs::convert::TryFromSpecImpl<&'a str> for TopicName<MAX_TOPIC_NAME_LENGTH> {
    open spec fn obeys_try_from_spec() -> bool {
        false
    }

    open spec fn try_from_spec(v: &'a str) -> Result<Self, ProtocolError> {
        Err(ProtocolError::TopicEmpty)
    }
}

impl<const MAX_TOPIC_NAME_LENGTH: usize> core::ops::Deref for TopicName<MAX_TOPIC_NAME_LENGTH> {
    type Target = HeaplessString<MAX_TOPIC_NAME_LENGTH>;

    fn deref(&self) -> (r: &HeaplessString<MAX_TOPIC_NAME_LENGTH>)
        ensures
            r@ == self@,
    {
        &self.0
    }
}

/// The levels of a topic string split at every `/`: an empty string is one empty level.
pub open spec fn split_levels(s: Seq<u8>) -> Seq<Seq<u8>>
    decreases s.len(),
{
    if s.len() == 0 {
        seq![Seq::<u8>::empty()]
    } else if s[0] == 0x2Fu8 {
        seq![Seq::<u8>::empty()] + split_levels(s.skip(1))
    } else {
        let rest = split_levels(s.skip(1));
        rest.update(0, seq![s[0]] + rest[0])
    }
}

/// The levels of a topic name or filter: none for the empty string, else its pieces
/// between slashes (so a trailing `/` gives a last, empty level).
pub open spec fn topic_levels(s: Seq<u8>) -> Seq<Seq<u8>> {
    if s.len() == 0 {
        Seq::empty()
    } else {
        split_levels(s)
    }
}

/// The single-level wildcard `+`.
pub open spec fn plus_level() -> Seq<u8> {
    seq![0x2Bu8]
}

/// The multi-level wildcard `#`.
pub open spec fn hash_level() -> Seq<u8> {
    seq![0x23u8]
}

/// Whether the published levels `p` match the filter levels `f`. A `+` level matches any
/// one level; a `#` that is the last filter level matches whatever is left, including
/// nothing; a `#` elsewhere is an ordinary level, matched only by a literal `#`; any other
/// level matches an equal level.
pub open spec fn levels_match(p: Seq<Seq<u8>>, f: Seq<Seq<u8>>) -> bool
    decreases f.len(),
{
    if f.len() == 0 {
        p.len() == 0
    } else if f[0] == hash_level() && f.len() == 1 {
        true
    } else if p.len() == 0 {
        false
    } else if f[0] == plus_level() || p[0] == f[0] {
        levels_match(p.skip(1), f.skip(1))
    } else {
        false
    }
}

/// Whether a published topic matches a subscription filter, level by level.
pub open spec fn spec_topic_matches(published: Seq<u8>, filter: Seq<u8>) -> bool {
    levels_match(topic_levels(published), topic_levels(filter))
}

/// Whether every level of `f` is `+` or equal to the level of `p` at the same place.
pub open spec fn levels_agree(p: Seq<Seq<u8>>, f: Seq<Seq<u8>>) -> bool {
    forall|i: int| 0 <= i < f.len() ==> #[trigger] f[i] == plus_level() || f[i] == p[i]
}

/// A filter whose last level is not `#` matches exactly the topics with as many levels,
/// each equal to the filter's level at the same place unless that level is `+`. A `#`
/// before the last level is compared as an ordinary level.
pub proof fn lemma_levels_match_exact(p: Seq<Seq<u8>>, f: Seq<Seq<u8>>)
    requires
        f.len() == 0 || f.last() != hash_level(),
    ensures
        levels_match(p, f) <==> (p.len() == f.len() && levels_agree(p, f)),
    decreases f.len(),
{
    if f.len() > 0 && p.len() > 0 {
        let (p1, f1) = (p.skip(1), f.skip(1));
        assert(f1.len() == 0 || f1.last() == f.last());
        lemma_levels_match_exact(p1, f1);
        if p.len() == f.len() && levels_agree(p, f) {
            assert forall|i: int| 0 <= i < f1.len() implies #[trigger] f1[i] == plus_level() || f1[i]
                == p1[i] by {
                assert(f1[i] == f[i + 1] && p1[i] == p[i + 1]);
            }
            assert(f[0] == plus_level() || f[0] == p[0]);
        }
        if levels_match(p, f) {
            assert(f[0] == plus_level() || p[0] == f[0]);
            assert forall|i: int| 0 <= i < f.len() implies #[trigger] f[i] == plus_level() || f[i] == p[i] by {
                if i > 0 {
                    assert(f1[i - 1] == f[i] && p1[i - 1] == p[i]);
                }
            }
        }
    }
}

/// A filter made of levels `l` followed by `#` matches exactly the topics with at least
/// as many levels as `l`, agreeing with `l` level by level where `l` is not `+`; whatever
/// follows, nothing included, is matched by the `#`.
pub proof fn lemma_hash_suffix_iff(p: Seq<Seq<u8>>, l: Seq<Seq<u8>>)
    ensures
        levels_match(p, l.push(hash_level())) <==> (p.len() >= l.len() && levels_agree(p, l)),
    decreases l.len(),
{
    let f = l.push(hash_level());
    if l.len() == 0 {
        assert(f =~= seq![hash_level()]);
    } else if p.len() > 0 {
        let (p1, l1) = (p.skip(1), l.skip(1));
        assert(f.skip(1) =~= l1.push(hash_level()));
        assert(f[0] == l[0]);
        lemma_hash_suffix_iff(p1, l1);
        if p.len() >= l.len() && levels_agree(p, l) {
            assert forall|i: int| 0 <= i < l1.len() implies #[trigger] l1[i] == plus_level() || l1[i]
                == p1[i] by {
                assert(l1[i] == l[i + 1] && p1[i] == p[i + 1]);
            }
            assert(l[0] == plus_level() || l[0] == p[0]);
        }
        if levels_match(p, f) {
            assert(l[0] == plus_level() || p[0] == l[0]);
            assert forall|i: int| 0 <= i < l.len() implies #[trigger] l[i] == plus_level() || l[i] == p[i] by {
                if i > 0 {
                    assert(l1[i - 1] == l[i] && p1[i - 1] == p[i]);
                }
            }
        }
    }
}

/// A filter made of levels `l` followed by `#` matches every topic that starts with those
/// levels, whatever follows them, nothing included; `#` alone matches every topic.
pub proof fn lemma_hash_suffix_matches(l: Seq<Seq<u8>>, rest: Seq<Seq<u8>>)
    ensures
        levels_match(l + rest, l.push(hash_level())),
{
    lemma_hash_suffix_iff(l + rest, l);
    assert forall|i: int| 0 <= i < l.len() implies #[trigger] l[i] == plus_level() || l[i] == (l
        + rest)[i] by {}
}

/// A topic used as a filter matches itself.
pub proof fn lemma_literal_matches_self(l: Seq<Seq<u8>>)
    ensures
        levels_match(l, l),
    decreases l.len(),
{
    if l.len() > 0 {
        lemma_literal_matches_self(l.skip(1));
    }
}

/// The filter `#` matches every topic.
pub proof fn lemma_hash_matches_all(topic: Seq<u8>)
    ensures
        spec_topic_matches(topic, hash_level()),
{
    assert(split_levels(Seq::<u8>::empty()) == seq![Seq::<u8>::empty()]);
    assert(hash_level().skip(1) =~= Seq::<u8>::empty());
    assert(seq![0x23u8] + Seq::<u8>::empty() =~= hash_level());
    assert(topic_levels(hash_level()) =~= seq![hash_level()]);
    lemma_hash_suffix_matches(Seq::empty(), topic_levels(topic));
    assert(Seq::<Seq<u8>>::empty() + topic_levels(topic) =~= topic_levels(topic));
    assert(Seq::<Seq<u8>>::empty().push(hash_level()) =~= seq![hash_level()]);
}

proof fn lemma_split_levels_nonempty(s: Seq<u8>)
    ensures
        split_levels(s).len() >= 1,
    decreases s.len(),
{
    if s.len() > 0 {
        lemma_split_levels_nonempty(s.skip(1));
    }
}

proof fn lemma_split_at_slash(s: Seq<u8>, pos: int)
    requires
        0 <= pos < s.len(),
        s[pos] == 0x2Fu8,
        forall|i: int| 0 <= i < pos ==> s[i] != 0x2Fu8,
    ensures
        split_levels(s) == seq![s.take(pos)] + split_levels(s.skip(pos + 1)),
    decreases pos,
{
    if pos == 0 {
        assert(s.take(0) =~= Seq::<u8>::empty());
    } else {
        let t = s.skip(1);
        lemma_split_at_slash(t, pos - 1);
        assert(t.skip(pos) =~= s.skip(pos + 1));
        assert(seq![s[0]] + t.take(pos - 1) =~= s.take(pos));
        assert(split_levels(s) =~= seq![s.take(pos)] + split_levels(s.skip(pos + 1)));
    }
}

proof fn lemma_split_no_slash(s: Seq<u8>)
    requires
        forall|i: int| 0 <= i < s.len() ==> s[i] != 0x2Fu8,
    ensures
        split_levels(s) == seq![s],
    decreases s.len(),
{
    if s.len() > 0 {
        let t = s.skip(1);
        lemma_split_no_slash(t);
        assert(seq![s[0]] + t =~= s);
        assert(split_levels(s) =~= seq![s]);
    } else {
        assert(s =~= Seq::<u8>::empty());
        assert(split_levels(s) =~= seq![s]);
    }
}

/// Walks the levels of a topic string one at a time.
pub struct LevelIterator<'a> {
    remaining: &'a str,
    pending_empty: bool,
}

impl<'a> LevelIterator<'a> {
    /// The levels not yet handed out.
    pub closed spec fn left(self) -> Seq<Seq<u8>> {
        if self.pending_empty {
            seq![Seq::<u8>::empty()]
        } else {
            topic_levels(self.remaining.spec_bytes())
        }
    }

    /// An iterator over the levels of `topic`.
    pub fn new(topic: &'a str) -> (r: Self)
        ensures
            r.left() == topic_levels(topic.spec_bytes()),
    {
        LevelIterator { remaining: topic, pending_empty: false }
    }

    /// The next level, if any is left.
    pub fn next(&mut self) -> (r: Option<&'a str>)
        ensures
            old(self).left().len() == 0 ==> r is None && final(self).left().len() == 0,
            old(self).left().len() > 0 ==> (r matches Some(l) && l.spec_bytes() == old(self).left()[0]
                && final(self).left() == old(self).left().drop_first()),
    {
        let rem = self.remaining;
        let bytes = rem.as_bytes();
        let n = bytes.len();
        proof {
            encode_utf8_valid_utf8(rem@);
            is_char_boundary_start_end_of_seq(bytes@);
        }
        if self.pending_empty {
            self.pending_empty = false;
            let (empty, _) = rem.split_at(0);
            assert(empty.spec_bytes() =~= Seq::<u8>::empty());
            self.remaining = empty;
            return Some(empty);
        }
        if n == 0 {
            return None;
        }
        let mut pos: usize = 0;
        while pos < n && bytes[pos] != 0x2Fu8
            invariant
                n == bytes@.len(),
                pos <= n,
                forall|i: int| 0 <= i < pos ==> bytes@[i] != 0x2Fu8,
            decreases n - pos,
        {
            pos = pos + 1;
        }
        if pos < n {
            proof {
                is_char_boundary_iff_not_is_continuation_byte(bytes@, pos as int);
            }
            let (level, rest) = rem.split_at(pos);
            let ghost rb = rest.spec_bytes();
            proof {
                encode_utf8_valid_utf8(rest@);
                assert(rb[0] == 0x2Fu8);
                assert(length_of_first_scalar(rb) == 1);
                reveal_with_fuel(is_char_boundary, 2);
                assert(pop_first_scalar(rb) =~= rb.subrange(1, rb.len() as int));
            }
            let (_, after) = rest.split_at(1);
            proof {
                lemma_split_at_slash(bytes@, pos as int);
                assert(level.spec_bytes() =~= bytes@.take(pos as int));
                assert(after.spec_bytes() =~= bytes@.skip(pos + 1));
                let old_left = seq![bytes@.take(pos as int)] + split_levels(bytes@.skip(pos + 1));
                assert(old_left.drop_first() =~= split_levels(bytes@.skip(pos + 1)));
            }
            self.remaining = after;
            if after.len() == 0 {
                self.pending_empty = true;
            }
            Some(level)
        } else {
            proof {
                lemma_split_no_slash(bytes@);
            }
            let (_, empty) = rem.split_at(n);
            assert(empty.spec_bytes() =~= Seq::<u8>::empty());
            self.remaining = empty;
            proof {
                assert(seq![bytes@].drop_first() =~= Seq::<Seq<u8>>::empty());
            }
            Some(rem)
        }
    }
}

fn is_level(level: &str, c: u8) -> (r: bool)
    ensures
        r == (level.spec_bytes() == seq![c]),
{
    let b = level.as_bytes();
    let r = b.len() == 1 && b[0] == c;
    assert(r ==> b@ =~= seq![c]);
    r
}

/// Whether the topic `published` matches the subscription filter `filter`.
pub fn topic_matches(published: &str, filter: &str) -> (r: bool)
    ensures
        r == spec_topic_matches(published.spec_bytes(), filter.spec_bytes()),
{
    let mut pub_levels = LevelIterator::new(published);
    let mut sub_levels = LevelIterator::new(filter);
    loop
        invariant
            levels_match(pub_levels.left(), sub_levels.left()) == spec_topic_matches(
                published.spec_bytes(),
                filter.spec_bytes(),
            ),
        decreases sub_levels.left().len(),
    {
        let ghost p = pub_levels.left();
        let ghost f = sub_levels.left();
        let pub_level = pub_levels.next();
        let sub_level = sub_levels.next();
        let level = match sub_level {
            Some(l) => l,
            None => {
                return pub_level.is_none();
            },
        };
        if is_level(level, 0x23u8) {
            let mut ahead = LevelIterator {
                remaining: sub_levels.remaining,
                pending_empty: sub_levels.pending_empty,
            };
            let after = ahead.next();
            if after.is_none() {
                return true;
            }
        }
        proof {
            assert(f.skip(1) =~= f.drop_first());
        }
        let pl = match pub_level {
            Some(l) => l,
            None => {
                return false;
            },
        };
        proof {
            assert(p.skip(1) =~= p.drop_first());
        }
        if is_level(level, 0x2Bu8) {
            continue;
        }
        if !bytes_equal(pl.as_bytes(), level.as_bytes()) {
            return false;
        }
    }
}

/// A topic filter and the sessions subscribed to it, as plain values.
pub ghost struct EntryView {
    pub name: Seq<u8>,
    pub subscribers: Seq<u128>,
}

/// A topic filter with the sessions subscribed to it.
#[derive(Debug, Clone, Copy, PartialEq, Eq)]
pub struct TopicEntry<const MAX_TOPIC_NAME_LENGTH: usize, const MAX_SUBSCRIBERS_PER_TOPIC: usize> {
    topic_name: TopicName<MAX_TOPIC_NAME_LENGTH>,
    subscribers: HeaplessVec<u128, MAX_SUBSCRIBERS_PER_TOPIC>,
}

impl<const MAX_TOPIC_NAME_LENGTH: usize, const MAX_SUBSCRIBERS_PER_TOPIC: usize> View for TopicEntry<
    MAX_TOPIC_NAME_LENGTH,
    MAX_SUBSCRIBERS_PER_TOPIC,
> {
    type V = EntryView;

    closed spec fn view(&self) -> EntryView {
        EntryView { name: self.topic_name@, subscribers: self.subscribers@ }
    }
}

/// True when `x` occurs in `ids`.
fn contains_id(ids: &[u128], x: u128) -> (r: bool)
    ensures
        r == ids@.contains(x),
{
    let mut i: usize = 0;
    while i < ids.len()
        invariant
            i <= ids@.len(),
            forall|j: int| 0 <= j < i ==> ids@[j] != x,
        decreases ids@.len() - i,
    {
        if ids[i] == x {
            return true;
        }
        i = i + 1;
    }
    false
}

/// The position of the first occurrence of `x` in `ids`, if any.
fn position_of(ids: &[u128], x: u128) -> (r: Option<usize>)
    ensures
        r is None <==> !ids@.contains(x),
        r matches Some(i) ==> ids@.index_of_first(x) == Some(i as int) && i < ids@.len()
            && ids@[i as int] == x,
        r is None ==> ids@.index_of_first(x) is None,
{
    let mut i: usize = 0;
    while i < ids.len()
        invariant
            i <= ids@.len(),
            forall|j: int| 0 <= j < i ==> ids@[j] != x,
        decreases ids@.len() - i,
    {
        if ids[i] == x {
            proof {
                ids@.index_of_first_ensures(x);
                let k = ids@.index_of_first(x).unwrap();
                assert(k == i as int) by {
                    if k < i {
                        assert(ids@[k] != x);
                    } else if k > i {
                        assert(ids@[i as int] == x);
                    }
                }
            }
            return Some(i);
        }
        i = i + 1;
    }
    proof {
        ids@.index_of_first_ensures(x);
    }
    None
}

impl<const MAX_TOPIC_NAME_LENGTH: usize, const MAX_SUBSCRIBERS_PER_TOPIC: usize> TopicEntry<
    MAX_TOPIC_NAME_LENGTH,
    MAX_SUBSCRIBERS_PER_TOPIC,
> {
    #[verifier::type_invariant]
    closed spec fn inv(self) -> bool {
        self.subscribers@.no_duplicates()
    }

    /// The most subscribers an entry holds.
    pub open spec fn subscriber_limit() -> nat {
        HeaplessVec::<u128, MAX_SUBSCRIBERS_PER_TOPIC>::limit()
    }

    /// An entry for `topic_name` with no subscribers.
    pub fn new(topic_name: TopicName<MAX_TOPIC_NAME_LENGTH>) -> (r: Self)
        ensures
            r@ == (EntryView { name: topic_name@, subscribers: Seq::empty() }),
    {
        TopicEntry { topic_name, subscribers: HeaplessVec::new() }
    }

    /// Subscribes `session_id`; nothing changes when it is already subscribed, and the
    /// entry refuses it when full.
    pub fn add_subscriber(&mut self, session_id: u128) -> (r: Result<(), BrokerError>)
        ensures
            final(self)@.name == old(self)@.name,
            final(self)@.subscribers.no_duplicates(),
            old(self)@.subscribers.contains(session_id) ==> r == Ok::<(), BrokerError>(())
                && final(self)@ == old(self)@,
            !old(self)@.subscribers.contains(session_id) && old(self)@.subscribers.len()
                < Self::subscriber_limit() ==> r == Ok::<(), BrokerError>(()) && final(self)@.subscribers
                == old(self)@.subscribers.push(session_id),
            !old(self)@.subscribers.contains(session_id) && old(self)@.subscribers.len()
                >= Self::subscriber_limit() ==> r == Err::<(), BrokerError>(
                BrokerError::MaxSubscribersPerTopicReached {
                    current: old(self)@.subscribers.len() as usize,
                    max: MAX_SUBSCRIBERS_PER_TOPIC,
                },
            ) && final(self)@ == old(self)@,
    {
        proof {
            use_type_invariant(&*self);
        }
        if contains_id(self.subscribers.as_slice(), session_id) {
            return Ok(());
        }
        let current = self.subscribers.len();
        let mut subs = self.subscribers;
        match subs.push(session_id) {
            Ok(()) => {
                assert(subs@.no_duplicates()) by {
                    assert(forall|i: int| 0 <= i < old(self)@.subscribers.len() ==> subs@[i] == old(self)@.subscribers[i]);
                }
                self.subscribers = subs;
                Ok(())
            },
            Err(_) => Err(
                BrokerError::MaxSubscribersPerTopicReached {
                    current,
                    max: MAX_SUBSCRIBERS_PER_TOPIC,
                },
            ),
        }
    }

    /// Unsubscribes `session_id`; true when it was subscribed.
    pub fn remove_subscriber(&mut self, session_id: u128) -> (r: bool)
        ensures
            r == old(self)@.subscribers.contains(session_id),
            final(self)@.name == old(self)@.name,
            final(self)@.subscribers == old(self)@.subscribers.remove_value(session_id),
            final(self)@.subscribers.no_duplicates(),
            !final(self)@.subscribers.contains(session_id),
    {
        proof {
            use_type_invariant(&*self);
        }
        match position_of(self.subscribers.as_slice(), session_id) {
            Some(pos) => {
                let mut subs = self.subscribers;
                subs.remove(pos);
                proof {
                    let o = old(self)@.subscribers;
                    assert(subs@ =~= o.remove(pos as int));
                    assert(subs@.no_duplicates()) by {
                        assert forall|i: int, j: int|
                            0 <= i < subs@.len() && 0 <= j < subs@.len() && i != j implies subs@[i]
                            != subs@[j] by {
                            let oi = if i < pos { i } else { i + 1 };
                            let oj = if j < pos { j } else { j + 1 };
                            assert(subs@[i] == o[oi]);
                            assert(subs@[j] == o[oj]);
                        }
                    }
                    assert(!subs@.contains(session_id)) by {
                        if subs@.contains(session_id) {
                            let k = choose|k: int| 0 <= k < subs@.len() && subs@[k] == session_id;
                            let ok = if k < pos { k } else { k + 1 };
                            assert(o[ok] == session_id);
                            assert(o[pos as int] == session_id);
                        }
                    }
                }
                self.subscribers = subs;
                true
            },
            None => false,
        }
    }

    /// True when no session is subscribed.
    pub fn is_empty(&self) -> (r: bool)
        ensures
            r == (self@.subscribers.len() == 0),
    {
        self.subscribers.is_empty()
    }

    /// The topic filter.
    pub fn topic_name(&self) -> (r: &TopicName<MAX_TOPIC_NAME_LENGTH>)
        ensures
            r@ == self@.name,
    {
        &self.topic_name
    }

    /// Number of subscribed sessions.
    pub fn subscriber_count(&self) -> (r: usize)
        ensures
            r == self@.subscribers.len(),
            r <= Self::subscriber_limit(),
    {
        self.subscribers.len()
    }

    /// The subscribed sessions, in the order they subscribed.
    pub fn subscribers(&self) -> (r: &[u128])
        ensures
            r@ == self@.subscribers,
            r@.no_duplicates(),
    {
        proof {
            use_type_invariant(self);
        }
        self.subscribers.as_slice()
    }
}

impl<const MAX_TOPIC_NAME_LENGTH: usize, const MAX_SUBSCRIBERS_PER_TOPIC: usize> Default for TopicEntry<
    MAX_TOPIC_NAME_LENGTH,
    MAX_SUBSCRIBERS_PER_TOPIC,
> {
    fn default() -> (r: Self)
        ensures
            r@ == (EntryView { name: Seq::empty(), subscribers: Seq::empty() }),
    {
        TopicEntry { topic_name: TopicName::default(), subscribers: HeaplessVec::new() }
    }
}

/// The bytes a topic reads as text: itself when it is UTF-8, else the empty string.
pub open spec fn text_bytes(s: Seq<u8>) -> Seq<u8> {
    if valid_utf8(s) {
        s
    } else {
        Seq::empty()
    }
}

/// The invariant of a registry: every entry has subscribers, none twice and no more than
/// `sub_limit`, and no two entries share a filter.
pub open spec fn registry_wf(v: Seq<EntryView>, sub_limit: nat) -> bool {
    &&& forall|i: int|
        #![trigger v[i]]
        0 <= i < v.len() ==> v[i].subscribers.no_duplicates() && 0 < v[i].subscribers.len()
            <= sub_limit
    &&& forall|i: int, j: int|
        0 <= i < v.len() && 0 <= j < v.len() && i != j ==> #[trigger] v[i].name != #[trigger] v[j].name
}

/// `acc` with `x` appended, unless it already holds `x` or has reached `lim` items.
pub open spec fn add_one(acc: Seq<u128>, x: u128, lim: nat) -> Seq<u128> {
    if acc.contains(x) || acc.len() >= lim {
        acc
    } else {
        acc.push(x)
    }
}

/// `acc` with each of `ids` added in turn by `add_one`.
pub open spec fn add_ids(acc: Seq<u128>, ids: Seq<u128>, lim: nat) -> Seq<u128>
    decreases ids.len(),
{
    if ids.len() == 0 {
        acc
    } else {
        add_one(add_ids(acc, ids.drop_last(), lim), ids.last(), lim)
    }
}

/// The sessions subscribed to a filter of `v` that matches `topic`, entry by entry and
/// each once, up to `lim` of them.
pub open spec fn subscribers_for(v: Seq<EntryView>, topic: Seq<u8>, lim: nat) -> Seq<u128>
    decreases v.len(),
{
    if v.len() == 0 {
        Seq::empty()
    } else {
        let acc = subscribers_for(v.drop_last(), topic, lim);
        if spec_topic_matches(topic, text_bytes(v.last().name)) {
            add_ids(acc, v.last().subscribers, lim)
        } else {
            acc
        }
    }
}

/// The entries of `v` once `session_id` has left them, dropping those left empty.
pub open spec fn without_session(v: Seq<EntryView>, session_id: u128) -> Seq<EntryView>
    decreases v.len(),
{
    if v.len() == 0 {
        Seq::empty()
    } else {
        let acc = without_session(v.drop_last(), session_id);
        let subs = v.last().subscribers.remove_value(session_id);
        if subs.len() > 0 {
            acc.push(EntryView { name: v.last().name, subscribers: subs })
        } else {
            acc
        }
    }
}

/// Number of entries of `v` that `session_id` is subscribed to.
pub open spec fn entries_with(v: Seq<EntryView>, session_id: u128) -> nat
    decreases v.len(),
{
    if v.len() == 0 {
        0
    } else {
        entries_with(v.drop_last(), session_id) + if v.last().subscribers.contains(session_id) {
            1nat
        } else {
            0nat
        }
    }
}

/// Number of subscriptions over all entries of `v`.
pub open spec fn total_subscriptions(v: Seq<EntryView>) -> nat
    decreases v.len(),
{
    if v.len() == 0 {
        0
    } else {
        total_subscriptions(v.drop_last()) + v.last().subscribers.len()
    }
}

/// Where the entry with filter `name` stands in `v`, if there is one.
pub open spec fn entry_index(v: Seq<EntryView>, name: Seq<u8>) -> Option<int> {
    if exists|i: int| 0 <= i < v.len() && v[i].name == name {
        Some(choose|i: int| 0 <= i < v.len() && v[i].name == name)
    } else {
        None
    }
}

/// What unsubscribing `session_id` from the filter `name` answers, and the registry after
/// it: the entry loses the session, and goes when nobody is left in it.
pub open spec fn after_unsubscribe(v: Seq<EntryView>, session_id: u128, name: Seq<u8>) -> (
    bool,
    Seq<EntryView>,
) {
    match entry_index(v, name) {
        Some(i) => {
            let subs = v[i].subscribers.remove_value(session_id);
            if subs.len() == 0 {
                (v[i].subscribers.contains(session_id), v.remove(i))
            } else {
                (
                    v[i].subscribers.contains(session_id),
                    v.update(i, EntryView { name: v[i].name, subscribers: subs }),
                )
            }
        },
        None => (false, v),
    }
}

/// The views of a sequence of entries.
pub open spec fn entries_view<const MAX_TOPIC_NAME_LENGTH: usize, const MAX_SUBSCRIBERS_PER_TOPIC: usize>(
    t: Seq<TopicEntry<MAX_TOPIC_NAME_LENGTH, MAX_SUBSCRIBERS_PER_TOPIC>>,
) -> Seq<EntryView> {
    t.map_values(|e: TopicEntry<MAX_TOPIC_NAME_LENGTH, MAX_SUBSCRIBERS_PER_TOPIC>| e@)
}

proof fn lemma_entries_view_update<const MAX_TOPIC_NAME_LENGTH: usize, const MAX_SUBSCRIBERS_PER_TOPIC: usize>(
    t: Seq<TopicEntry<MAX_TOPIC_NAME_LENGTH, MAX_SUBSCRIBERS_PER_TOPIC>>,
    i: int,
    e: TopicEntry<MAX_TOPIC_NAME_LENGTH, MAX_SUBSCRIBERS_PER_TOPIC>,
)
    requires
        0 <= i < t.len(),
    ensures
        entries_view(t.update(i, e)) == entries_view(t).update(i, e@),
{
    assert(entries_view(t.update(i, e)) =~= entries_view(t).update(i, e@));
}

proof fn lemma_entries_view_push<const MAX_TOPIC_NAME_LENGTH: usize, const MAX_SUBSCRIBERS_PER_TOPIC: usize>(
    t: Seq<TopicEntry<MAX_TOPIC_NAME_LENGTH, MAX_SUBSCRIBERS_PER_TOPIC>>,
    e: TopicEntry<MAX_TOPIC_NAME_LENGTH, MAX_SUBSCRIBERS_PER_TOPIC>,
)
    ensures
        entries_view(t.push(e)) == entries_view(t).push(e@),
{
    assert(entries_view(t.push(e)) =~= entries_view(t).push(e@));
}

proof fn lemma_entries_view_remove<const MAX_TOPIC_NAME_LENGTH: usize, const MAX_SUBSCRIBERS_PER_TOPIC: usize>(
    t: Seq<TopicEntry<MAX_TOPIC_NAME_LENGTH, MAX_SUBSCRIBERS_PER_TOPIC>>,
    i: int,
)
    requires
        0 <= i < t.len(),
    ensures
        entries_view(without(t, i)) == entries_view(t).remove(i),
{
    assert(entries_view(without(t, i)) =~= entries_view(t).remove(i));
}

proof fn lemma_wf_update(v: Seq<EntryView>, i: int, x: EntryView, lim: nat)
    requires
        registry_wf(v, lim),
        0 <= i < v.len(),
        x.name == v[i].name,
        x.subscribers.no_duplicates(),
        0 < x.subscribers.len() <= lim,
    ensures
        registry_wf(v.update(i, x), lim),
{
    let w = v.update(i, x);
    assert forall|a: int, b: int| 0 <= a < w.len() && 0 <= b < w.len() && a != b implies #[trigger] w[a].name
        != #[trigger] w[b].name by {
        assert(w[a].name == v[a].name && w[b].name == v[b].name);
    }
    assert forall|a: int| 0 <= a < w.len() implies #[trigger] w[a].subscribers.no_duplicates()
        && 0 < w[a].subscribers.len() <= lim by {
        if a != i {
            assert(w[a] == v[a]);
        }
    }
}

proof fn lemma_wf_push(v: Seq<EntryView>, x: EntryView, lim: nat)
    requires
        registry_wf(v, lim),
        forall|j: int| 0 <= j < v.len() ==> v[j].name != x.name,
        x.subscribers.no_duplicates(),
        0 < x.subscribers.len() <= lim,
    ensures
        registry_wf(v.push(x), lim),
{
    let w = v.push(x);
    assert forall|a: int, b: int| 0 <= a < w.len() && 0 <= b < w.len() && a != b implies #[trigger] w[a].name
        != #[trigger] w[b].name by {
        if a < v.len() && b < v.len() {
            assert(w[a] == v[a] && w[b] == v[b]);
        } else if a < v.len() {
            assert(w[a] == v[a]);
        } else {
            assert(w[b] == v[b]);
        }
    }
    assert forall|a: int| 0 <= a < w.len() implies #[trigger] w[a].subscribers.no_duplicates()
        && 0 < w[a].subscribers.len() <= lim by {
        if a < v.len() {
            assert(w[a] == v[a]);
        }
    }
}

proof fn lemma_wf_remove(v: Seq<EntryView>, i: int, lim: nat)
    requires
        registry_wf(v, lim),
        0 <= i < v.len(),
    ensures
        registry_wf(v.remove(i), lim),
{
    let w = v.remove(i);
    assert forall|a: int, b: int| 0 <= a < w.len() && 0 <= b < w.len() && a != b implies #[trigger] w[a].name
        != #[trigger] w[b].name by {
        let oa = if a < i { a } else { a + 1 };
        let ob = if b < i { b } else { b + 1 };
        assert(w[a] == v[oa] && w[b] == v[ob]);
    }
    assert forall|a: int| 0 <= a < w.len() implies #[trigger] w[a].subscribers.no_duplicates()
        && 0 < w[a].subscribers.len() <= lim by {
        let oa = if a < i { a } else { a + 1 };
        assert(w[a] == v[oa]);
    }
}

/// The topic registry: topic filters and the sessions subscribed to each.
#[derive(Debug, Clone, Copy, PartialEq, Eq)]
pub struct TopicRegistry<
    const MAX_TOPIC_NAME_LENGTH: usize,
    const MAX_TOPICS: usize,
    const MAX_SUBSCRIBERS_PER_TOPIC: usize,
> {
    topics: HeaplessVec<TopicEntry<MAX_TOPIC_NAME_LENGTH, MAX_SUBSCRIBERS_PER_TOPIC>, MAX_TOPICS>,
}

impl<
    const MAX_TOPIC_NAME_LENGTH: usize,
    const MAX_TOPICS: usize,
    const MAX_SUBSCRIBERS_PER_TOPIC: usize,
> View for TopicRegistry<MAX_TOPIC_NAME_LENGTH, MAX_TOPICS, MAX_SUBSCRIBERS_PER_TOPIC> {
    type V = Seq<EntryView>;

    closed spec fn view(&self) -> Seq<EntryView> {
        entries_view(self.topics@)
    }
}

impl<
    const MAX_TOPIC_NAME_LENGTH: usize,
    const MAX_TOPICS: usize,
    const MAX_SUBSCRIBERS_PER_TOPIC: usize,
> TopicRegistry<MAX_TOPIC_NAME_LENGTH, MAX_TOPICS, MAX_SUBSCRIBERS_PER_TOPIC> {
    #[verifier::type_invariant]
    closed spec fn inv(self) -> bool {
        &&& registry_wf(self@, Self::subscriber_limit())
        &&& self@.len() <= MAX_TOPICS
    }

    /// The most subscribers one filter holds.
    pub open spec fn subscriber_limit() -> nat {
        HeaplessVec::<u128, MAX_SUBSCRIBERS_PER_TOPIC>::limit()
    }

    /// The most filters the registry holds.
    pub open spec fn topic_limit() -> nat {
        HeaplessVec::<TopicEntry<MAX_TOPIC_NAME_LENGTH, MAX_SUBSCRIBERS_PER_TOPIC>, MAX_TOPICS>::limit()
    }

    /// What subscribing `session_id` to the filter `name` answers, and the registry after it:
    /// an existing entry takes the session unless it holds it already or is full; a new
    /// filter gets an entry of its own unless the registry or the entry has no room.
    pub open spec fn after_subscribe(v: Seq<EntryView>, session_id: u128, name: Seq<u8>) -> (
        Result<(), BrokerError>,
        Seq<EntryView>,
    ) {
        match entry_index(v, name) {
            Some(i) => {
                let subs = v[i].subscribers;
                if subs.contains(session_id) {
                    (Ok(()), v)
                } else if subs.len() < Self::subscriber_limit() {
                    (Ok(()), v.update(i, EntryView { name, subscribers: subs.push(session_id) }))
                } else {
                    (
                        Err(
                            BrokerError::MaxSubscribersPerTopicReached {
                                current: subs.len() as usize,
                                max: MAX_SUBSCRIBERS_PER_TOPIC,
                            },
                        ),
                        v,
                    )
                }
            },
            None => if v.len() >= MAX_TOPICS {
                (Err(BrokerError::MaxTopicsReached { current: v.len() as usize, max: MAX_TOPICS }), v)
            } else if Self::subscriber_limit() == 0 {
                (
                    Err(
                        BrokerError::MaxSubscribersPerTopicReached {
                            current: 0,
                            max: MAX_SUBSCRIBERS_PER_TOPIC,
                        },
                    ),
                    v,
                )
            } else if v.len() >= Self::topic_limit() {
                (Err(BrokerError::BufferFull), v)
            } else {
                (Ok(()), v.push(EntryView { name, subscribers: seq![session_id] }))
            },
        }
    }

    /// An empty registry.
    pub fn new() -> (r: Self)
        ensures
            r@ == Seq::<EntryView>::empty(),
            registry_wf(r@, Self::subscriber_limit()),
    {
        let r = TopicRegistry { topics: HeaplessVec::new() };
        assert(r@ =~= Seq::<EntryView>::empty());
        r
    }

    /// The registry's invariant holds.
    pub fn well_formed(&self) -> (r: bool)
        ensures
            r,
            registry_wf(self@, Self::subscriber_limit()),
            self@.len() <= MAX_TOPICS,
    {
        proof {
            use_type_invariant(self);
        }
        true
    }

    /// Where the entry for `filter` stands, if there is one.
    fn find(&self, filter: &TopicName<MAX_TOPIC_NAME_LENGTH>) -> (r: Option<usize>)
        ensures
            r is None ==> entry_index(self@, filter@) is None,
            r matches Some(i) ==> entry_index(self@, filter@) == Some(i as int) && i < self@.len(),
    {
        proof {
            use_type_invariant(self);
        }
        let n = self.topics.len();
        let mut i: usize = 0;
        while i < n
            invariant
                n == self@.len(),
                self@.len() == self.topics@.len(),
                registry_wf(self@, Self::subscriber_limit()),
                i <= n,
                forall|j: int| 0 <= j < i ==> self@[j].name != filter@,
            decreases n - i,
        {
            let e = self.topics.get_copy(i);
            assert(self@[i as int] == e@);
            if e.topic_name().same_as(filter) {
                proof {
                    assert(self@[i as int].name == filter@);
                    let k = choose|k: int| 0 <= k < self@.len() && self@[k].name == filter@;
                    if k != i as int {
                        assert(self@[k].name != self@[i as int].name);
                    }
                }
                return Some(i);
            }
            i = i + 1;
        }
        None
    }

    /// Subscribes `session_id` to `filter`, creating the filter's entry when it is new.
    pub fn subscribe(&mut self, session_id: u128, filter: TopicName<MAX_TOPIC_NAME_LENGTH>) -> (r: Result<
        (),
        BrokerError,
    >)
        ensures
            r == Self::after_subscribe(old(self)@, session_id, filter@).0,
            final(self)@ == Self::after_subscribe(old(self)@, session_id, filter@).1,
            registry_wf(final(self)@, Self::subscriber_limit()),
            final(self)@.len() <= MAX_TOPICS,
    {
        proof {
            use_type_invariant(&*self);
        }
        let ghost v = self@;
        match self.find(&filter) {
            Some(i) => {
                let mut e = self.topics.get_copy(i);
                assert(e@ == v[i as int]);
                let r = e.add_subscriber(session_id);
                proof {
                    use_type_invariant(&e);
                }
                if r.is_ok() {
                    proof {
                        lemma_entries_view_update(self.topics@, i as int, e);
                        lemma_wf_update(v, i as int, e@, Self::subscriber_limit());
                    }
                    self.topics.set(i, e);
                    proof {
                        if v[i as int].subscribers.contains(session_id) {
                            assert(self@ =~= v);
                        } else {
                            assert(e@ == (EntryView {
                                name: filter@,
                                subscribers: v[i as int].subscribers.push(session_id),
                            }));
                        }
                    }
                }
                proof {
                    let subs = v[i as int].subscribers;
                    assert(entry_index(v, filter@) == Some(i as int));
                    if subs.contains(session_id) {
                        assert(r == Ok::<(), BrokerError>(()));
                    } else if subs.len() < Self::subscriber_limit() {
                        assert(r == Ok::<(), BrokerError>(()));
                    } else {
                        assert(r == Err::<(), BrokerError>(BrokerError::MaxSubscribersPerTopicReached {
                            current: subs.len() as usize,
                            max: MAX_SUBSCRIBERS_PER_TOPIC,
                        }));
                    }
                }
                assert(r == Self::after_subscribe(v, session_id, filter@).0);
                r
            },
            None => {
                let current = self.topics.len();
                if current >= MAX_TOPICS {
                    assert(Self::after_subscribe(v, session_id, filter@).0 == Err::<(), BrokerError>(BrokerError::MaxTopicsReached { current, max: MAX_TOPICS }));
                    return Err(BrokerError::MaxTopicsReached { current, max: MAX_TOPICS });
                }
                let mut new_entry = TopicEntry::new(filter);
                if let Err(e) = new_entry.add_subscriber(session_id) {
                    assert(Self::after_subscribe(v, session_id, filter@).0 == Err::<(), BrokerError>(e));
                    return Err(e);
                }
                proof {
                    use_type_invariant(&new_entry);
                    assert(new_entry@.subscribers =~= seq![session_id]);
                }
                proof {
                    lemma_entries_view_push(self.topics@, new_entry);
                    lemma_wf_push(v, new_entry@, Self::subscriber_limit());
                }
                match self.topics.push(new_entry) {
                    Ok(()) => {
                        assert(Self::after_subscribe(v, session_id, filter@).0 == Ok::<(), BrokerError>(()));
                        Ok(())
                    },
                    Err(_) => {
                        assert(Self::after_subscribe(v, session_id, filter@).0 == Err::<(), BrokerError>(BrokerError::BufferFull));
                        Err(BrokerError::BufferFull)
                    },
                }
            },
        }
    }

    /// The sessions subscribed to a filter that matches `topic`, each once, in the order of
    /// the filters and of their subscriptions, up to the capacity of the result.
    pub fn get_subscribers(&self, topic: &TopicName<MAX_TOPIC_NAME_LENGTH>) -> (r: HeaplessVec<
        u128,
        MAX_SUBSCRIBERS_PER_TOPIC,
    >)
        ensures
            r@ == subscribers_for(self@, text_bytes(topic@), Self::subscriber_limit()),
    {
        let ghost lim = Self::subscriber_limit();
        let ghost t = text_bytes(topic@);
        let published = topic.as_heapless().as_str();
        assert(published.spec_bytes() == t);
        let mut subscribers: HeaplessVec<u128, MAX_SUBSCRIBERS_PER_TOPIC> = HeaplessVec::new();
        let n = self.topics.len();
        let mut i: usize = 0;
        while i < n
            invariant
                n == self@.len(),
                self@.len() == self.topics@.len(),
                i <= n,
                published.spec_bytes() == t,
                lim == Self::subscriber_limit(),
                subscribers@ == subscribers_for(self@.take(i as int), t, lim),
            decreases n - i,
        {
            let entry = self.topics.get_copy(i);
            assert(self@[i as int] == entry@);
            assert(self@.take(i + 1).drop_last() =~= self@.take(i as int));
            let filter = entry.topic_name().as_heapless().as_str();
            if topic_matches(published, filter) {
                let ids = entry.subscribers();
                let ghost acc = subscribers@;
                let mut j: usize = 0;
                while j < ids.len()
                    invariant
                        j <= ids@.len(),
                        lim == Self::subscriber_limit(),
                        subscribers@ == add_ids(acc, ids@.take(j as int), lim),
                    decreases ids@.len() - j,
                {
                    let id = ids[j];
                    assert(ids@.take(j + 1).drop_last() =~= ids@.take(j as int));
                    assert(ids@.take(j + 1).last() == id);
                    if !contains_id(subscribers.as_slice(), id) {
                        let _ = subscribers.push(id);
                    }
                    j = j + 1;
                }
                assert(ids@.take(j as int) =~= ids@);
            }
            i = i + 1;
        }
        assert(self@.take(n as int) =~= self@);
        subscribers
    }

    /// Unsubscribes `session_id` from `filter`, dropping the filter once nobody is
    /// subscribed to it; true when the session was subscribed.
    pub fn unsubscribe(&mut self, session_id: u128, filter: &TopicName<MAX_TOPIC_NAME_LENGTH>) -> (r: bool)
        ensures
            r == after_unsubscribe(old(self)@, session_id, filter@).0,
            final(self)@ == after_unsubscribe(old(self)@, session_id, filter@).1,
            registry_wf(final(self)@, Self::subscriber_limit()),
            final(self)@.len() <= MAX_TOPICS,
    {
        proof {
            use_type_invariant(&*self);
        }
        let ghost v = self@;
        match self.find(filter) {
            Some(idx) => {
                let mut e = self.topics.get_copy(idx);
                assert(e@ == v[idx as int]);
                let removed = e.remove_subscriber(session_id);
                proof {
                    use_type_invariant(&e);
                    lemma_remove_value_props(v[idx as int].subscribers, session_id);
                }
                if e.is_empty() {
                    proof {
                        lemma_entries_view_remove(self.topics@, idx as int);
                        lemma_wf_remove(v, idx as int, Self::subscriber_limit());
                    }
                    self.topics.remove(idx);
                } else {
                    proof {
                        lemma_entries_view_update(self.topics@, idx as int, e);
                        lemma_wf_update(v, idx as int, e@, Self::subscriber_limit());
                    }
                    self.topics.set(idx, e);
                }
                removed
            },
            None => false,
        }
    }

    /// Unsubscribes `session_id` from every filter, dropping filters left without
    /// subscribers; returns the number of filters it was subscribed to.
    pub fn unregister_all(&mut self, session_id: u128) -> (r: usize)
        ensures
            r == entries_with(old(self)@, session_id),
            final(self)@ == without_session(old(self)@, session_id),
            registry_wf(final(self)@, Self::subscriber_limit()),
            final(self)@.len() <= MAX_TOPICS,
            forall|i: int| 0 <= i < final(self)@.len() ==> !(#[trigger] final(self)@[i]).subscribers.contains(session_id),
    {
        proof {
            use_type_invariant(&*self);
        }
        let ghost v = self@;
        let n = self.topics.len();
        let mut kept: HeaplessVec<TopicEntry<MAX_TOPIC_NAME_LENGTH, MAX_SUBSCRIBERS_PER_TOPIC>, MAX_TOPICS> =
            HeaplessVec::new();
        let mut removed_count: usize = 0;
        let mut i: usize = 0;
        while i < n
            invariant
                n == v.len(),
                v == self@,
                self@.len() == self.topics@.len(),
                n <= Self::topic_limit(),
                i <= n,
                removed_count == entries_with(v.take(i as int), session_id),
                removed_count <= i,
                kept@.len() <= i,
                kept@.map_values(|e: TopicEntry<MAX_TOPIC_NAME_LENGTH, MAX_SUBSCRIBERS_PER_TOPIC>| e@)
                    == without_session(v.take(i as int), session_id),
            decreases n - i,
        {
            let mut e = self.topics.get_copy(i);
            assert(v[i as int] == e@);
            assert(v.take(i + 1).drop_last() =~= v.take(i as int));
            let ghost before = kept@;
            if e.remove_subscriber(session_id) {
                removed_count = removed_count + 1;
            }
            if !e.is_empty() {
                let pushed = kept.push(e);
                assert(pushed is Ok);
                assert(kept@.map_values(|e: TopicEntry<MAX_TOPIC_NAME_LENGTH, MAX_SUBSCRIBERS_PER_TOPIC>| e@)
                    =~= before.map_values(|e: TopicEntry<MAX_TOPIC_NAME_LENGTH, MAX_SUBSCRIBERS_PER_TOPIC>| e@).push(e@));
            }
            i = i + 1;
        }
        assert(v.take(n as int) =~= v);
        proof {
            lemma_without_session_wf(v, session_id, Self::subscriber_limit());
        }
        self.topics = kept;
        removed_count
    }

    /// Number of filters with subscribers.
    pub fn topic_count(&self) -> (r: usize)
        ensures
            r == self@.len(),
    {
        self.topics.len()
    }

    /// Number of subscriptions over all filters.
    pub fn subscription_count(&self) -> (r: usize)
        ensures
            r == total_subscriptions(self@),
    {
        proof {
            use_type_invariant(self);
        }
        let n = self.topics.len();
        let mut total: usize = 0;
        let mut i: usize = 0;
        while i < n
            invariant
                n == self@.len(),
                self@.len() == self.topics@.len(),
                n <= 65535,
                i <= n,
                registry_wf(self@, Self::subscriber_limit()),
                total == total_subscriptions(self@.take(i as int)),
                total <= i * 65535,
            decreases n - i,
        {
            let e = self.topics.get_copy(i);
            assert(self@[i as int] == e@);
            assert(self@.take(i + 1).drop_last() =~= self@.take(i as int));
            let c = e.subscriber_count();
            proof {
                assert(i * 65535 + 65535 <= 65535 * 65535) by (nonlinear_arith)
                    requires i < 65535;
                assert((i + 1) * 65535 == i * 65535 + 65535) by (nonlinear_arith);
            }
            total = total + c;
            i = i + 1;
        }
        assert(self@.take(n as int) =~= self@);
        total
    }

    /// Drops every filter and subscription.
    pub fn clear_all(&mut self)
        ensures
            final(self)@ == Seq::<EntryView>::empty(),
    {
        self.topics.clear();
        assert(self@ =~= Seq::<EntryView>::empty());
    }
}

impl<
    const MAX_TOPIC_NAME_LENGTH: usize,
    const MAX_TOPICS: usize,
    const MAX_SUBSCRIBERS_PER_TOPIC: usize,
> Default for TopicRegistry<MAX_TOPIC_NAME_LENGTH, MAX_TOPICS, MAX_SUBSCRIBERS_PER_TOPIC> {
    fn default() -> (r: Self)
        ensures
            r@ == Seq::<EntryView>::empty(),
    {
        Self::new()
    }
}

/// Every entry left by `without_session` has subscribers, none twice, and no two share a
/// filter; the session is in none of them.
pub proof fn lemma_without_session_wf(v: Seq<EntryView>, session_id: u128, sub_limit: nat)
    requires
        registry_wf(v, sub_limit),
    ensures
        registry_wf(without_session(v, session_id), sub_limit),
        forall|i: int|
            0 <= i < without_session(v, session_id).len() ==> !#[trigger] without_session(
                v,
                session_id,
            )[i].subscribers.contains(session_id),
        forall|i: int|
            0 <= i < without_session(v, session_id).len() ==> exists|j: int|
                0 <= j < v.len() && #[trigger] without_session(v, session_id)[i].name == v[j].name,
    decreases v.len(),
{
    if v.len() > 0 {
        let d = v.drop_last();
        assert(registry_wf(d, sub_limit)) by {
            assert forall|i: int, j: int|
                0 <= i < d.len() && 0 <= j < d.len() && i != j implies #[trigger] d[i].name
                != #[trigger] d[j].name by {
                assert(d[i] == v[i] && d[j] == v[j]);
            }
            assert forall|i: int| 0 <= i < d.len() implies #[trigger] d[i].subscribers.no_duplicates()
                && 0 < d[i].subscribers.len() <= sub_limit by {
                assert(d[i] == v[i]);
            }
        }
        lemma_without_session_wf(d, session_id, sub_limit);
        let acc = without_session(d, session_id);
        let last = v.last();
        assert(last == v[v.len() - 1]);
        lemma_remove_value_props(last.subscribers, session_id);
        let subs = last.subscribers.remove_value(session_id);
        if subs.len() > 0 {
            let w = acc.push(EntryView { name: last.name, subscribers: subs });
            assert(without_session(v, session_id) == w);
            assert forall|i: int| 0 <= i < w.len() implies exists|j: int|
                0 <= j < v.len() && #[trigger] w[i].name == v[j].name by {
                if i == w.len() - 1 {
                    assert(w[i].name == v[v.len() - 1].name);
                } else {
                    assert(w[i] == acc[i]);
                    let j = choose|j: int| 0 <= j < d.len() && acc[i].name == d[j].name;
                    assert(d[j] == v[j]);
                }
            }
            assert forall|i: int, j: int|
                0 <= i < w.len() && 0 <= j < w.len() && i != j implies #[trigger] w[i].name
                != #[trigger] w[j].name by {
                if i == w.len() - 1 || j == w.len() - 1 {
                    let k = if i == w.len() - 1 { j } else { i };
                    assert(w[k] == acc[k]);
                    let jj = choose|jj: int| 0 <= jj < d.len() && acc[k].name == d[jj].name;
                    assert(d[jj] == v[jj]);
                    assert(v[jj].name != v[v.len() - 1].name);
                } else {
                    assert(w[i] == acc[i] && w[j] == acc[j]);
                }
            }
            assert forall|i: int| 0 <= i < w.len() implies #[trigger] w[i].subscribers.no_duplicates()
                && 0 < w[i].subscribers.len() <= sub_limit by {
                if i < w.len() - 1 {
                    assert(w[i] == acc[i]);
                }
            }
            assert forall|i: int| 0 <= i < w.len() implies !#[trigger] w[i].subscribers.contains(
                session_id,
            ) by {
                if i < w.len() - 1 {
                    assert(w[i] == acc[i]);
                }
            }
        }
    }
}

/// Removing a value from a sequence without duplicates leaves one without duplicates and
/// without that value, and keeps every other value.
pub proof fn lemma_remove_value_props(s: Seq<u128>, x: u128)
    requires
        s.no_duplicates(),
    ensures
        s.remove_value(x).no_duplicates(),
        !s.remove_value(x).contains(x),
        s.remove_value(x).len() <= s.len(),
        s.contains(x) ==> s.remove_value(x).len() == s.len() - 1,
        forall|y: u128| y != x ==> (#[trigger] s.remove_value(x).contains(y) <==> s.contains(y)),
{
    s.index_of_first_ensures(x);
    match s.index_of_first(x) {
        Some(p) => {
            let t = s.remove(p);
            assert(t.len() == s.len() - 1);
            assert forall|i: int| 0 <= i < t.len() implies #[trigger] t[i] == s[if i < p { i } else { i + 1 }] by {
            }
            assert forall|i: int, j: int|
                0 <= i < t.len() && 0 <= j < t.len() && i != j implies t[i] != t[j] by {
                let oi = if i < p { i } else { i + 1 };
                let oj = if j < p { j } else { j + 1 };
                assert(t[i] == s[oi] && t[j] == s[oj]);
            }
            assert(!t.contains(x)) by {
                if t.contains(x) {
                    let k = choose|k: int| 0 <= k < t.len() && t[k] == x;
                    let ok = if k < p { k } else { k + 1 };
                    assert(t[k] == s[ok]);
                }
            }
            assert forall|y: u128| y != x implies (#[trigger] t.contains(y) <==> s.contains(y)) by {
                if s.contains(y) {
                    let k = choose|k: int| 0 <= k < s.len() && s[k] == y;
                    assert(k != p);
                    let tk = if k < p { k } else { k - 1 };
                    assert(t[tk] == s[k]);
                }
                if t.contains(y) {
                    let k = choose|k: int| 0 <= k < t.len() && t[k] == y;
                    let ok = if k < p { k } else { k + 1 };
                    assert(t[k] == s[ok]);
                }
            }
        },
        None => {},
    }
}

proof fn lemma_add_ids_props(acc: Seq<u128>, ids: Seq<u128>, lim: nat)
    requires
        acc.no_duplicates(),
        acc.len() <= lim,
    ensures
        add_ids(acc, ids, lim).no_duplicates(),
        add_ids(acc, ids, lim).len() <= lim,
        acc.len() <= add_ids(acc, ids, lim).len(),
        forall|x: u128| acc.contains(x) ==> #[trigger] add_ids(acc, ids, lim).contains(x),
        forall|x: u128| #[trigger] add_ids(acc, ids, lim).contains(x) ==> acc.contains(x) || ids.contains(x),
        add_ids(acc, ids, lim).len() < lim ==> forall|x: u128| #[trigger] ids.contains(x) ==> add_ids(
            acc,
            ids,
            lim,
        ).contains(x),
    decreases ids.len(),
{
    if ids.len() > 0 {
        let d = ids.drop_last();
        let x = ids.last();
        lemma_add_ids_props(acc, d, lim);
        let prev = add_ids(acc, d, lim);
        let r = add_ids(acc, ids, lim);
        assert(r == add_one(prev, x, lim));
        assert forall|y: u128| #[trigger] d.contains(y) implies ids.contains(y) by {
            let k = choose|k: int| 0 <= k < d.len() && d[k] == y;
            assert(ids[k] == y);
        }
        assert forall|y: u128| #[trigger] ids.contains(y) implies d.contains(y) || y == x by {
            let k = choose|k: int| 0 <= k < ids.len() && ids[k] == y;
            if k < ids.len() - 1 {
                assert(d[k] == y);
            }
        }
        if !(prev.contains(x) || prev.len() >= lim) {
            assert(r == prev.push(x));
            assert(r.no_duplicates()) by {
                assert forall|a: int, b: int| 0 <= a < r.len() && 0 <= b < r.len() && a != b implies r[a]
                    != r[b] by {
                    if a < prev.len() && b < prev.len() {
                    } else if a < prev.len() {
                        assert(r[b] == x);
                        assert(prev.contains(r[a]));
                    } else {
                        assert(r[a] == x);
                        assert(prev.contains(r[b]));
                    }
                }
            }
            assert forall|y: u128| prev.contains(y) implies #[trigger] r.contains(y) by {
                let k = choose|k: int| 0 <= k < prev.len() && prev[k] == y;
                assert(r[k] == y);
            }
            assert forall|y: u128| #[trigger] r.contains(y) implies prev.contains(y) || y == x by {
                let k = choose|k: int| 0 <= k < r.len() && r[k] == y;
                if k < prev.len() {
                    assert(prev[k] == y);
                }
            }
            assert(r.contains(x)) by {
                assert(r[r.len() - 1] == x);
            }
        }
    }
}

proof fn lemma_subscribers_for_props(v: Seq<EntryView>, topic: Seq<u8>, lim: nat)
    ensures
        subscribers_for(v, topic, lim).no_duplicates(),
        subscribers_for(v, topic, lim).len() <= lim,
        forall|x: u128| #[trigger] subscribers_for(v, topic, lim).contains(x) ==> exists|i: int|
            0 <= i < v.len() && spec_topic_matches(topic, text_bytes(v[i].name))
                && #[trigger] v[i].subscribers.contains(x),
        subscribers_for(v, topic, lim).len() < lim ==> forall|i: int, x: u128|
            0 <= i < v.len() && spec_topic_matches(topic, text_bytes(v[i].name))
                && #[trigger] v[i].subscribers.contains(x) ==> subscribers_for(v, topic, lim).contains(x),
    decreases v.len(),
{
    if v.len() > 0 {
        let d = v.drop_last();
        lemma_subscribers_for_props(d, topic, lim);
        let acc = subscribers_for(d, topic, lim);
        let r = subscribers_for(v, topic, lim);
        let last = v.last();
        let m = spec_topic_matches(topic, text_bytes(last.name));
        if m {
            lemma_add_ids_props(acc, last.subscribers, lim);
        }
        assert forall|x: u128| #[trigger] r.contains(x) implies exists|i: int|
            0 <= i < v.len() && spec_topic_matches(topic, text_bytes(v[i].name))
                && #[trigger] v[i].subscribers.contains(x) by {
            if acc.contains(x) {
                let i = choose|i: int|
                    0 <= i < d.len() && spec_topic_matches(topic, text_bytes(d[i].name))
                        && #[trigger] d[i].subscribers.contains(x);
                assert(d[i] == v[i]);
            } else {
                assert(v[v.len() - 1] == last);
            }
        }
        if r.len() < lim {
            assert(acc.len() <= r.len());
            assert forall|i: int, x: u128|
                0 <= i < v.len() && spec_topic_matches(topic, text_bytes(v[i].name))
                    && #[trigger] v[i].subscribers.contains(x) implies r.contains(x) by {
                if i < v.len() - 1 {
                    assert(d[i] == v[i]);
                    assert(acc.contains(x));
                } else {
                    assert(v[i] == last);
                }
            }
        }
    }
}

/// The sessions found for a topic are distinct, at most the capacity, and each is
/// subscribed to a filter that matches the topic; unless the capacity is reached, every
/// session subscribed to a matching filter is among them.
pub proof fn lemma_get_subscribers_law(v: Seq<EntryView>, topic: Seq<u8>, lim: nat)
    ensures
        subscribers_for(v, topic, lim).no_duplicates(),
        subscribers_for(v, topic, lim).len() <= lim,
        forall|x: u128| #[trigger] subscribers_for(v, topic, lim).contains(x) ==> exists|i: int|
            0 <= i < v.len() && spec_topic_matches(topic, text_bytes(v[i].name))
                && #[trigger] v[i].subscribers.contains(x),
        subscribers_for(v, topic, lim).len() < lim ==> forall|i: int, x: u128|
            0 <= i < v.len() && spec_topic_matches(topic, text_bytes(v[i].name))
                && #[trigger] v[i].subscribers.contains(x) ==> subscribers_for(v, topic, lim).contains(x),
{
    lemma_subscribers_for_props(v, topic, lim);
}

proof fn lemma_entry_index_at(v: Seq<EntryView>, i: int, name: Seq<u8>, lim: nat)
    requires
        registry_wf(v, lim),
        0 <= i < v.len(),
        v[i].name == name,
    ensures
        entry_index(v, name) == Some(i),
{
    let k = choose|k: int| 0 <= k < v.len() && v[k].name == name;
    if k != i {
        assert(v[k].name != v[i].name);
    }
}

impl<
    const MAX_TOPIC_NAME_LENGTH: usize,
    const MAX_TOPICS: usize,
    const MAX_SUBSCRIBERS_PER_TOPIC: usize,
> TopicRegistry<MAX_TOPIC_NAME_LENGTH, MAX_TOPICS, MAX_SUBSCRIBERS_PER_TOPIC> {
    /// Subscribing a session to a filter a second time changes nothing and succeeds.
    pub proof fn lemma_subscribe_idempotent(v: Seq<EntryView>, session_id: u128, name: Seq<u8>)
        requires
            registry_wf(v, Self::subscriber_limit()),
            Self::after_subscribe(v, session_id, name).0 is Ok,
        ensures
            Self::after_subscribe(Self::after_subscribe(v, session_id, name).1, session_id, name)
                == (Ok::<(), BrokerError>(()), Self::after_subscribe(v, session_id, name).1),
    {
        let lim = Self::subscriber_limit();
        let v1 = Self::after_subscribe(v, session_id, name).1;
        match entry_index(v, name) {
            Some(i) => {
                let subs = v[i].subscribers;
                if !subs.contains(session_id) {
                    lemma_wf_update(v, i, EntryView { name, subscribers: subs.push(session_id) }, lim);
                    assert(subs.push(session_id).no_duplicates()) by {
                        assert forall|a: int, b: int|
                            0 <= a < subs.len() + 1 && 0 <= b < subs.len() + 1 && a != b implies subs.push(
                                session_id,
                            )[a] != subs.push(session_id)[b] by {
                            if a < subs.len() && b < subs.len() {
                            } else if a < subs.len() {
                                assert(subs.contains(subs[a]));
                            } else {
                                assert(subs.contains(subs[b]));
                            }
                        }
                    }
                    assert(subs.push(session_id)[subs.len() as int] == session_id);
                }
                lemma_entry_index_at(v1, i, name, lim);
            },
            None => {
                let x = EntryView { name, subscribers: seq![session_id] };
                lemma_wf_push(v, x, lim);
                assert(v1[v.len() as int] == x);
                lemma_entry_index_at(v1, v.len() as int, name, lim);
                assert(x.subscribers[0] == session_id);
            },
        }
    }

    /// Subscribing a session that was not subscribed to a filter, then unsubscribing it,
    /// gives back the registry as it was, and the unsubscription reports the session;
    /// unsubscribing it without the subscription reports nothing and changes nothing.
    pub proof fn lemma_subscribe_then_unsubscribe(v: Seq<EntryView>, session_id: u128, name: Seq<u8>)
        requires
            registry_wf(v, Self::subscriber_limit()),
            entry_index(v, name) matches Some(i) ==> !v[i].subscribers.contains(session_id),
            Self::after_subscribe(v, session_id, name).0 is Ok,
        ensures
            after_unsubscribe(Self::after_subscribe(v, session_id, name).1, session_id, name) == (
                true,
                v,
            ),
            after_unsubscribe(v, session_id, name) == (false, v),
    {
        let lim = Self::subscriber_limit();
        let v1 = Self::after_subscribe(v, session_id, name).1;
        match entry_index(v, name) {
            Some(i) => {
                let subs = v[i].subscribers;
                subs.index_of_first_ensures(session_id);
                assert(subs.remove_value(session_id) == subs);
                assert(v.update(i, EntryView { name: v[i].name, subscribers: subs }) =~= v);
                let pushed = subs.push(session_id);
                assert(pushed.no_duplicates()) by {
                    assert forall|a: int, b: int|
                        0 <= a < pushed.len() && 0 <= b < pushed.len() && a != b implies pushed[a]
                        != pushed[b] by {
                        if a < subs.len() && b < subs.len() {
                        } else if a < subs.len() {
                            assert(subs.contains(subs[a]));
                        } else {
                            assert(subs.contains(subs[b]));
                        }
                    }
                }
                lemma_wf_update(v, i, EntryView { name, subscribers: pushed }, lim);
                lemma_entry_index_at(v1, i, name, lim);
                pushed.index_of_first_ensures(session_id);
                assert(pushed[subs.len() as int] == session_id);
                let p = pushed.index_of_first(session_id).unwrap();
                assert(p == subs.len()) by {
                    if p < subs.len() {
                        assert(pushed[p] == subs[p]);
                        assert(subs.contains(session_id));
                    }
                }
                assert(pushed.remove_value(session_id) =~= subs);
                assert(v1.update(i, EntryView { name: v1[i].name, subscribers: subs }) =~= v);
            },
            None => {
                let x = EntryView { name, subscribers: seq![session_id] };
                lemma_wf_push(v, x, lim);
                assert(v1[v.len() as int] == x);
                lemma_entry_index_at(v1, v.len() as int, name, lim);
                x.subscribers.index_of_first_ensures(session_id);
                assert(x.subscribers[0] == session_id);
                assert(x.subscribers.remove_value(session_id) =~= Seq::<u128>::empty());
                assert(v1.remove(v.len() as int) =~= v);
            },
        }
    }
}

/// After a session is unsubscribed from a filter, the filter's entry, if it remains, no
/// longer holds the session.
pub proof fn lemma_unsubscribe_clears(v: Seq<EntryView>, session_id: u128, name: Seq<u8>, lim: nat)
    requires
        registry_wf(v, lim),
    ensures
        forall|j: int|
            0 <= j < after_unsubscribe(v, session_id, name).1.len() && #[trigger] after_unsubscribe(
                v,
                session_id,
                name,
            ).1[j].name == name ==> !after_unsubscribe(v, session_id, name).1[j].subscribers.contains(
                session_id,
            ),
{
    let w = after_unsubscribe(v, session_id, name).1;
    match entry_index(v, name) {
        Some(i) => {
            lemma_remove_value_props(v[i].subscribers, session_id);
            assert forall|j: int| 0 <= j < w.len() && #[trigger] w[j].name == name implies !w[j].subscribers.contains(
                session_id,
            ) by {
                let subs = v[i].subscribers.remove_value(session_id);
                if subs.len() == 0 {
                    let oj = if j < i { j } else { j + 1 };
                    assert(w[j] == v[oj]);
                    assert(v[oj].name != v[i].name);
                } else if j != i {
                    assert(w[j] == v[j]);
                    assert(v[j].name != v[i].name);
                }
            }
        },
        None => {
            assert forall|j: int| 0 <= j < w.len() && #[trigger] w[j].name == name implies !w[j].subscribers.contains(
                session_id,
            ) by {
                assert(v[j].name == name);
            }
        },
    }
}

/// In a well-formed registry every filter has a subscriber, so there are no more filters
/// than subscriptions.
pub proof fn lemma_topics_within_subscriptions(v: Seq<EntryView>, lim: nat)
    requires
        registry_wf(v, lim),
    ensures
        v.len() <= total_subscriptions(v),
    decreases v.len(),
{
    if v.len() > 0 {
        let w = v.drop_last();
        assert(registry_wf(w, lim)) by {
            assert forall|i: int| 0 <= i < w.len() implies #[trigger] w[i] == v[i] by {}
        }
        lemma_topics_within_subscriptions(w, lim);
        assert(v[v.len() - 1] == v.last());
    }
}

/// Taking a session out of every filter removes exactly one subscription for each filter
/// it was subscribed to.
pub proof fn lemma_without_session_count(v: Seq<EntryView>, session_id: u128, lim: nat)
    requires
        registry_wf(v, lim),
    ensures
        total_subscriptions(without_session(v, session_id)) + entries_with(v, session_id)
            == total_subscriptions(v),
    decreases v.len(),
{
    if v.len() > 0 {
        let w = v.drop_last();
        assert(registry_wf(w, lim)) by {
            assert forall|i: int| 0 <= i < w.len() implies #[trigger] w[i] == v[i] by {}
        }
        lemma_without_session_count(w, session_id, lim);
        assert(v[v.len() - 1] == v.last());
        lemma_remove_value_props(v.last().subscribers, session_id);
        v.last().subscribers.index_of_first_ensures(session_id);
        let acc = without_session(w, session_id);
        let subs = v.last().subscribers.remove_value(session_id);
        if !v.last().subscribers.contains(session_id) {
            assert(subs == v.last().subscribers);
        }
        if subs.len() > 0 {
            let pushed = acc.push(EntryView { name: v.last().name, subscribers: subs });
            assert(pushed.drop_last() =~= acc);
            assert(total_subscriptions(pushed) == total_subscriptions(acc) + subs.len());
        }
    }
}

/// Taking one session out of every filter never puts another session in: a session that
/// no entry holds is held by none afterwards.
pub proof fn lemma_without_session_keeps_absent(v: Seq<EntryView>, session_id: u128, other: u128)
    requires
        forall|i: int| 0 <= i < v.len() ==> !(#[trigger] v[i]).subscribers.contains(other),
    ensures
        forall|i: int|
            0 <= i < without_session(v, session_id).len() ==> !(#[trigger] without_session(
                v,
                session_id,
            )[i]).subscribers.contains(other),
    decreases v.len(),
{
    if v.len() > 0 {
        let d = v.drop_last();
        assert forall|i: int| 0 <= i < d.len() implies !(#[trigger] d[i]).subscribers.contains(other) by {
            assert(d[i] == v[i]);
        }
        lemma_without_session_keeps_absent(d, session_id, other);
        let last = v[v.len() - 1];
        let subs = last.subscribers.remove_value(session_id);
        last.subscribers.index_of_first_ensures(session_id);
        assert(!subs.contains(other)) by {
            if subs.contains(other) {
                let k = choose|k: int| 0 <= k < subs.len() && subs[k] == other;
                if let Some(p) = last.subscribers.index_of_first(session_id) {
                    if k < p {
                        assert(subs[k] == last.subscribers[k]);
                    } else {
                        assert(subs[k] == last.subscribers[k + 1]);
                    }
                }
                assert(last.subscribers.contains(other));
            }
        }
        let acc = without_session(d, session_id);
        if subs.len() > 0 {
            let w = acc.push(EntryView { name: last.name, subscribers: subs });
            assert forall|i: int| 0 <= i < w.len() implies !(#[trigger] w[i]).subscribers.contains(other) by {
                if i < acc.len() {
                    assert(w[i] == acc[i]);
                }
            }
        }
    }
}

/// The sessions subscribed to some filter of `v` that matches `topic`.
pub open spec fn matching_subscribers(v: Seq<EntryView>, topic: Seq<u8>) -> Set<u128> {
    Set::new(
        |x: u128|
            exists|i: int|
                0 <= i < v.len() && spec_topic_matches(topic, text_bytes(v[i].name))
                    && #[trigger] v[i].subscribers.contains(x),
    )
}

/// Every session subscribed to some filter of `v`.
spec fn all_subscribers(v: Seq<EntryView>) -> Set<u128>
    decreases v.len(),
{
    if v.len() == 0 {
        Set::empty()
    } else {
        all_subscribers(v.drop_last()).union(v.last().subscribers.to_set())
    }
}

proof fn lemma_all_subscribers(v: Seq<EntryView>)
    ensures
        all_subscribers(v).finite(),
        forall|i: int, x: u128|
            0 <= i < v.len() && #[trigger] v[i].subscribers.contains(x) ==> all_subscribers(v).contains(x),
    decreases v.len(),
{
    if v.len() > 0 {
        let d = v.drop_last();
        lemma_all_subscribers(d);
        vstd::seq_lib::seq_to_set_is_finite(v.last().subscribers);
        assert forall|i: int, x: u128| 0 <= i < v.len() && #[trigger] v[i].subscribers.contains(x) implies all_subscribers(
            v,
        ).contains(x) by {
            if i < d.len() {
                assert(d[i] == v[i]);
            } else {
                assert(v.last().subscribers.to_set().contains(x));
            }
        }
    }
}

/// The sessions matching a topic are finitely many, and when there are no more of them
/// than the capacity of the result, every one of them is found.
pub proof fn lemma_get_subscribers_complete(v: Seq<EntryView>, topic: Seq<u8>, lim: nat)
    ensures
        matching_subscribers(v, topic).finite(),
        matching_subscribers(v, topic).len() <= lim ==> forall|x: u128|
            #[trigger] matching_subscribers(v, topic).contains(x) ==> subscribers_for(v, topic, lim).contains(x),
{
    let m = matching_subscribers(v, topic);
    let r = subscribers_for(v, topic, lim);
    lemma_all_subscribers(v);
    assert(m.subset_of(all_subscribers(v)));
    vstd::set_lib::lemma_len_subset(m, all_subscribers(v));
    lemma_get_subscribers_law(v, topic, lim);
    if m.len() <= lim {
        assert forall|x: u128| #[trigger] m.contains(x) implies r.contains(x) by {
            if !r.contains(x) {
                let i = choose|i: int|
                    0 <= i < v.len() && spec_topic_matches(topic, text_bytes(v[i].name))
                        && #[trigger] v[i].subscribers.contains(x);
                assert(r.len() == lim);
                r.unique_seq_to_set();
                let big = r.to_set().insert(x);
                assert(big.subset_of(m)) by {
                    assert forall|y: u128| big.contains(y) implies m.contains(y) by {
                        if y != x {
                            assert(r.contains(y));
                        }
                    }
                }
                vstd::seq_lib::seq_to_set_is_finite(r);
                vstd::set_lib::lemma_len_subset(big, m);
                assert(!r.to_set().contains(x));
            }
        }
    }
}

} // verus!
