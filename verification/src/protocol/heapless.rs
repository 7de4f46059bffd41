//! Fixed-capacity string and vector types backed by inline arrays.
use vstd::prelude::*;
use vstd::string::*;
use vstd::utf8::*;
use crate::protocol::text::{char_bytes, encode_char, utf8_str, bytes_equal};

verus! {

/// Error returned when an item does not fit into a fixed-capacity container.
#[derive(Debug, Clone, Copy, PartialEq, Eq, PartialOrd, Ord, Hash)]
pub struct PushError;

/// A UTF-8 string of at most `N` bytes stored inline.
#[derive(Debug, Clone, Copy, PartialEq, Eq, PartialOrd, Ord, Hash)]
pub struct HeaplessString<const N: usize> {
    length: u8,
    data: [u8; N],
}

impl<const N: usize> View for HeaplessString<N> {
    type V = Seq<u8>;

    /// The bytes currently held.
    closed spec fn view(&self) -> Seq<u8> {
        self.data@.take(self.length as int)
    }
}

/// `count` copies of `unit` laid end to end.
pub open spec fn repeated(unit: Seq<u8>, count: nat) -> Seq<u8>
    decreases count,
{
    if count == 0 {
        Seq::empty()
    } else {
        repeated(unit, (count - 1) as nat) + unit
    }
}

pub proof fn lemma_repeated_len(unit: Seq<u8>, count: nat)
    ensures
        repeated(unit, count).len() == count * unit.len(),
    decreases count,
{
    if count > 0 {
        lemma_repeated_len(unit, (count - 1) as nat);
        assert(repeated(unit, count).len() == (count - 1) * unit.len() + unit.len());
        assert((count - 1) * unit.len() + unit.len() == count * unit.len()) by (nonlinear_arith);
    } else {
        assert(0 * unit.len() == 0) by (nonlinear_arith);
    }
}

impl<const N: usize> HeaplessString<N> {
    #[verifier::type_invariant]
    closed spec fn inv(&self) -> bool {
        self.length as int <= N
    }

    /// The most bytes the string can hold: `N`, and never more than a `u8` length can count.
    pub open spec fn limit() -> nat {
        if N <= u8::MAX {
            N as nat
        } else {
            u8::MAX as nat
        }
    }


    /// An empty string.
    pub fn new() -> (r: Self)
        ensures
            r@ == Seq::<u8>::empty(),
    {
        let r = HeaplessString { length: 0, data: [0u8; N] };
        assert(r@ =~= Seq::<u8>::empty());
        r
    }

    /// Builds a string holding the bytes of `s`; fails when they do not fit.
    pub fn from_str(s: &str) -> (r: Result<Self, PushError>)
        ensures
            r is Ok <==> s.spec_bytes().len() <= Self::limit(),
            r matches Ok(h) ==> h@ == s.spec_bytes(),
    {
        let mut h = Self::new();
        match h.push_str(s) {
            Ok(()) => {
                assert(h@ =~= s.spec_bytes());
                Ok(h)
            },
            Err(e) => Err(e),
        }
    }

    /// Builds a string holding `bytes`; fails when they do not fit.
    pub fn from_bytes(bytes: &[u8]) -> (r: Result<Self, PushError>)
        ensures
            r is Ok <==> bytes@.len() <= Self::limit(),
            r matches Ok(h) ==> h@ == bytes@,
    {
        let mut h = Self::new();
        match h.push_bytes(bytes) {
            Ok(()) => {
                assert(h@ =~= bytes@);
                Ok(h)
            },
            Err(e) => Err(e),
        }
    }

    /// A string filled with as many whole copies of `c` as fit.
    pub fn repeat(c: char) -> (r: Self)
        ensures
            r@ == repeated(char_bytes(c), Self::limit() / char_bytes(c).len()),
    {
        let (buf, ch_len) = encode_char(c);
        let ghost unit = char_bytes(c);
        let mut s = Self::new();
        let cap: usize = if N <= 255 { N } else { 255 };
        let mut count: usize = 0;
        let mut i: usize = 0;
        while i + ch_len <= cap
            invariant
                1 <= ch_len <= 4,
                unit.len() == ch_len,
                buf@.take(ch_len as int) == unit,
                cap == Self::limit(),
                i == count * ch_len,
                count <= i,
                i <= cap,
                s@ == repeated(unit, count as nat),
            decreases cap - i,
        {
            let mut j: usize = 0;
            let ghost before = s@;
            proof {
                lemma_repeated_len(unit, count as nat);
            }
            while j < ch_len
                invariant
                    1 <= ch_len <= 4,
                    j <= ch_len,
                    i + ch_len <= cap,
                    cap == Self::limit(),
                    buf@.take(ch_len as int) == unit,
                    unit.len() == ch_len,
                    s@.len() == i + j,
                    s@ == before + unit.take(j as int),
                    before.len() == i,
                decreases ch_len - j,
            {
                let b = buf[j];
                assert(b == unit[j as int]);
                let pushed = s.push_byte(b);
                assert(pushed is Ok);
                assert(unit.take(j + 1) =~= unit.take(j as int).push(b));
                j = j + 1;
            }
            assert(unit.take(ch_len as int) =~= unit);
            assert(s@ == repeated(unit, (count + 1) as nat));
            i = i + ch_len;
            count = count + 1;
            proof {
                assert(i == count * ch_len) by (nonlinear_arith)
                    requires i == (count - 1) * ch_len + ch_len;
            }
        }
        proof {
            let l = Self::limit() as int;
            let u = ch_len as int;
            assert(count == l / u) by (nonlinear_arith)
                requires
                    i == count * u,
                    i <= l,
                    i + u > l,
                    u >= 1,
            ;
        }
        s
    }

    /// The string's bytes.
    pub fn as_bytes(&self) -> (r: &[u8])
        ensures
            r@ == self@,
    {
        proof { use_type_invariant(self); }
        let r = vstd::slice::slice_subrange(self.data.as_slice(), 0, self.length as usize);
        assert(r@ =~= self@);
        r
    }

    /// The string as `&str`; the empty string when the bytes are not UTF-8.
    pub fn as_str(&self) -> (r: &str)
        ensures
            valid_utf8(self@) ==> r.spec_bytes() == self@,
            !valid_utf8(self@) ==> r.spec_bytes().len() == 0,
    {
        match utf8_str(self.as_bytes()) {
            Some(s) => s,
            None => {
                let e = "";
                proof {
                    reveal_strlit("");
                }
                e
            },
        }
    }

    /// Number of bytes held.
    pub fn len(&self) -> (r: usize)
        ensures
            r == self@.len(),
            r <= Self::limit(),
    {
        proof { use_type_invariant(self); }
        self.length as usize
    }

    pub fn is_empty(&self) -> (r: bool)
        ensures
            r == (self@.len() == 0),
    {
        proof { use_type_invariant(self); }
        self.length == 0
    }

    /// The declared capacity `N`.
    pub fn capacity(&self) -> (r: usize)
        ensures
            r == N,
    {
        N
    }

    /// Removes all bytes.
    pub fn clear(&mut self)
        ensures
            final(self)@ == Seq::<u8>::empty(),
    {
        self.length = 0;
        self.data = [0u8; N];
        assert(self@ =~= Seq::<u8>::empty());
    }

    /// True when both strings hold the same bytes.
    pub fn same_as(&self, other: &Self) -> (r: bool)
        ensures
            r == (self@ == other@),
    {
        bytes_equal(self.as_bytes(), other.as_bytes())
    }

    /// Appends one byte; nothing changes when the string is full.
    pub fn push_byte(&mut self, b: u8) -> (r: Result<(), PushError>)
        ensures
            r is Ok <==> old(self)@.len() < Self::limit(),
            r is Ok ==> final(self)@ == old(self)@.push(b),
            r is Err ==> final(self)@ == old(self)@,
    {
        proof { use_type_invariant(&*self); }
        if (self.length as usize) < N && self.length < 255 {
            let i = self.length as usize;
            self.data[i] = b;
            self.length = self.length + 1;
            assert(self@ =~= old(self)@.push(b));
            Ok(())
        } else {
            Err(PushError)
        }
    }

    /// Appends `bytes`; nothing changes when they do not all fit.
    pub fn push_bytes(&mut self, bytes: &[u8]) -> (r: Result<(), PushError>)
        ensures
            r is Ok <==> old(self)@.len() + bytes@.len() <= Self::limit(),
            r is Ok ==> final(self)@ == old(self)@ + bytes@,
            r is Err ==> final(self)@ == old(self)@,
    {
        proof { use_type_invariant(&*self); }
        let cap: usize = if N <= 255 { N } else { 255 };
        let cur = self.length as usize;
        if bytes.len() > cap || cur > cap - bytes.len() {
            return Err(PushError);
        }
        let mut i: usize = 0;
        while i < bytes.len()
            invariant
                cap == Self::limit(),
                cur == old(self)@.len(),
                cur + bytes@.len() <= cap,
                i <= bytes@.len(),
                self@ == old(self)@ + bytes@.take(i as int),
            decreases bytes@.len() - i,
        {
            let pushed = self.push_byte(bytes[i]);
            assert(pushed is Ok);
            assert(bytes@.take(i + 1) =~= bytes@.take(i as int).push(bytes@[i as int]));
            i = i + 1;
        }
        assert(bytes@.take(i as int) =~= bytes@);
        Ok(())
    }

    /// Appends the UTF-8 encoding of `ch`; nothing changes when it does not fit.
    pub fn push(&mut self, ch: char) -> (r: Result<(), PushError>)
        ensures
            r is Ok <==> old(self)@.len() + char_bytes(ch).len() <= Self::limit(),
            r is Ok ==> final(self)@ == old(self)@ + char_bytes(ch),
            r is Err ==> final(self)@ == old(self)@,
    {
        let (buf, n) = encode_char(ch);
        let enc = vstd::slice::slice_subrange(buf.as_slice(), 0, n);
        self.push_bytes(enc)
    }

    /// Appends the bytes of `s`; nothing changes when they do not fit.
    pub fn push_str(&mut self, s: &str) -> (r: Result<(), PushError>)
        ensures
            r is Ok <==> old(self)@.len() + s.spec_bytes().len() <= Self::limit(),
            r is Ok ==> final(self)@ == old(self)@ + s.spec_bytes(),
            r is Err ==> final(self)@ == old(self)@,
    {
        self.push_bytes(s.as_bytes())
    }

    /// Appends as much of `s` as fits, cutting it at the capacity.
    pub fn write_truncating(&mut self, s: &str)
        ensures
            final(self)@ == old(self)@ + s.spec_bytes().take(
                vstd::math::min(s.spec_bytes().len() as int, Self::limit() - old(self)@.len()),
            ),
    {
        proof { use_type_invariant(&*self); }
        let bytes = s.as_bytes();
        let cap: usize = if N <= 255 { N } else { 255 };
        let remaining = cap - self.length as usize;
        let to_copy = if bytes.len() < remaining { bytes.len() } else { remaining };
        let part = vstd::slice::slice_subrange(bytes, 0, to_copy);
        let pushed = self.push_bytes(part);
        assert(pushed is Ok);
    }
}

impl<const N: usize> Default for HeaplessString<N> {
    fn default() -> (r: Self)
        ensures
            r@ == Seq::<u8>::empty(),
    {
        Self::new()
    }
}

impl<'a, const N: usize> TryFrom<&'a str> for HeaplessString<N> {
    type Error = PushError;

    fn try_from(value: &'a str) -> (r: Result<Self, PushError>)
        ensures
            r is Ok <==> value.spec_bytes().len() <= Self::limit(),
            r matches Ok(h) ==> h@ == value.spec_bytes(),
    {
        Self::from_str(value)
    }
}

impl<'a, const N: usize> vstd::std_specs::convert::TryFromSpecImpl<&'a str> for HeaplessString<N> {
    open spec fn obeys_try_from_spec() -> bool {
        false
    }

    open spec fn try_from_spec(v: &'a str) -> Result<Self, PushError> {
        Err(PushError)
    }
}

/// The item at `index` of an array, to change in place.
fn slot_mut<T, const N: usize>(data: &mut [T; N], index: usize) -> (r: &mut T)
    requires
        index < N,
    ensures
        *r == old(data)@[index as int],
        final(data)@ == old(data)@.update(index as int, *final(r)),
    no_unwind
{
    &mut data[index]
}

/// A vector of at most `N` items stored inline.
#[derive(Debug, Copy, PartialEq, Eq, PartialOrd, Ord, Hash)]
pub struct HeaplessVec<T, const N: usize> {
    length: u16,
    data: [T; N],
}

impl<T, const N: usize> View for HeaplessVec<T, N> {
    type V = Seq<T>;

    /// The items currently held, in order.
    closed spec fn view(&self) -> Seq<T> {
        self.data@.take(self.length as int)
    }
}

/// The items of `s` for which `keep` holds, in order.
pub open spec fn kept<T>(s: Seq<T>, keep: Seq<bool>) -> Seq<T>
    decreases s.len(),
{
    if s.len() == 0 {
        Seq::empty()
    } else if keep.last() {
        kept(s.drop_last(), keep.drop_last()).push(s.last())
    } else {
        kept(s.drop_last(), keep.drop_last())
    }
}

/// `s` without its item at `index`.
pub open spec fn without<T>(s: Seq<T>, index: int) -> Seq<T> {
    s.take(index) + s.skip(index + 1)
}

impl<T, const N: usize> HeaplessVec<T, N> {
    #[verifier::type_invariant]
    closed spec fn inv(&self) -> bool {
        self.length as int <= N
    }

    /// The most items the vector can hold: `N`, and never more than a `u16` length can count.
    pub open spec fn limit() -> nat {
        if N <= u16::MAX {
            N as nat
        } else {
            u16::MAX as nat
        }
    }

}

impl<T: Copy + Default, const N: usize> HeaplessVec<T, N> {
    /// An empty vector.
    pub fn new() -> (r: Self)
        ensures
            r@ == Seq::<T>::empty(),
    {
        let fill = T::default();
        let r = HeaplessVec { length: 0, data: [fill; N] };
        assert(r@ =~= Seq::<T>::empty());
        r
    }
}

impl<T: Copy + Default, const N: usize> Default for HeaplessVec<T, N> {
    fn default() -> (r: Self)
        ensures
            r@ == Seq::<T>::empty(),
    {
        Self::new()
    }
}

impl<T: Copy, const N: usize> HeaplessVec<T, N> {
    /// Number of items held.
    pub fn len(&self) -> (r: usize)
        ensures
            r == self@.len(),
            r <= Self::limit(),
    {
        proof { use_type_invariant(self); }
        self.length as usize
    }

    pub fn is_empty(&self) -> (r: bool)
        ensures
            r == (self@.len() == 0),
    {
        proof { use_type_invariant(self); }
        self.length == 0
    }

    /// The declared capacity `N`.
    pub fn capacity(&self) -> (r: usize)
        ensures
            r == N,
    {
        N
    }

    /// Removes all items.
    pub fn clear(&mut self)
        ensures
            final(self)@ == Seq::<T>::empty(),
        no_unwind
    {
        self.length = 0;
        assert(self@ =~= Seq::<T>::empty());
    }

    /// Appends `item`; fails, changing nothing, when the vector is full.
    pub fn push(&mut self, item: T) -> (r: Result<(), PushError>)
        ensures
            r is Ok <==> old(self)@.len() < Self::limit(),
            r is Ok ==> final(self)@ == old(self)@.push(item),
            r is Err ==> final(self)@ == old(self)@,
        no_unwind
    {
        proof { use_type_invariant(&*self); }
        if (self.length as usize) < N && self.length < u16::MAX {
            let i = self.length as usize;
            self.data[i] = item;
            self.length = self.length + 1;
            assert(self@ =~= old(self)@.push(item));
            Ok(())
        } else {
            Err(PushError)
        }
    }

    /// Removes and returns the last item.
    pub fn pop(&mut self) -> (r: Option<T>)
        ensures
            old(self)@.len() == 0 ==> r is None && final(self)@ == old(self)@,
            old(self)@.len() > 0 ==> r == Some(old(self)@.last()) && final(self)@
                == old(self)@.drop_last(),
    {
        proof { use_type_invariant(&*self); }
        if self.length == 0 {
            return None;
        }
        self.length = self.length - 1;
        let item = self.data[self.length as usize];
        assert(self@ =~= old(self)@.drop_last());
        Some(item)
    }

    /// The item at `index`, if there is one.
    pub fn get(&self, index: usize) -> (r: Option<&T>)
        ensures
            index < self@.len() ==> r == Some(&self@[index as int]),
            index >= self@.len() ==> r is None,
    {
        proof { use_type_invariant(self); }
        if index < self.length as usize {
            Some(&self.data[index])
        } else {
            None
        }
    }

    /// A copy of the item at `index`.
    pub fn get_copy(&self, index: usize) -> (r: T)
        requires
            index < self@.len(),
        ensures
            r == self@[index as int],
    {
        proof { use_type_invariant(self); }
        self.data[index]
    }

    /// The item at `index`, to change in place.
    pub fn get_mut(&mut self, index: usize) -> (r: &mut T)
        requires
            index < old(self)@.len(),
        ensures
            *r == old(self)@[index as int],
            final(self)@ == old(self)@.update(index as int, *final(r)),
    {
        proof { use_type_invariant(&*self); }
        slot_mut(&mut self.data, index)
    }

    /// Replaces the item at `index`.
    pub fn set(&mut self, index: usize, item: T)
        requires
            index < old(self)@.len(),
        ensures
            final(self)@ == old(self)@.update(index as int, item),
        no_unwind
    {
        proof { use_type_invariant(&*self); }
        self.data[index] = item;
        assert(self@ =~= old(self)@.update(index as int, item));
    }

    /// The items held, as a slice.
    pub fn as_slice(&self) -> (r: &[T])
        ensures
            r@ == self@,
    {
        proof { use_type_invariant(self); }
        let r = vstd::slice::slice_subrange(self.data.as_slice(), 0, self.length as usize);
        assert(r@ =~= self@);
        r
    }

    /// Appends all of `slice`; fails, changing nothing, when they do not all fit.
    pub fn extend_from_slice(&mut self, slice: &[T]) -> (r: Result<(), PushError>)
        ensures
            r is Ok <==> old(self)@.len() + slice@.len() <= Self::limit(),
            r is Ok ==> final(self)@ == old(self)@ + slice@,
            r is Err ==> final(self)@ == old(self)@,
    {
        proof { use_type_invariant(&*self); }
        let cap: usize = if N <= 65535 { N } else { 65535 };
        let cur = self.length as usize;
        if slice.len() > cap || cur > cap - slice.len() {
            return Err(PushError);
        }
        let mut i: usize = 0;
        while i < slice.len()
            invariant
                cap == Self::limit(),
                cur == old(self)@.len(),
                cur + slice@.len() <= cap,
                i <= slice@.len(),
                self@ == old(self)@ + slice@.take(i as int),
            decreases slice@.len() - i,
        {
            let pushed = self.push(slice[i]);
            assert(pushed is Ok);
            assert(slice@.take(i + 1) =~= slice@.take(i as int).push(slice@[i as int]));
            i = i + 1;
        }
        assert(slice@.take(i as int) =~= slice@);
        Ok(())
    }

    /// Keeps only the items for which `f` answers true, in their order.
    pub fn retain<F: Fn(&T) -> bool>(&mut self, f: F)
        requires
            forall|x: &T| f.requires((x,)),
        ensures
            exists|keep: Seq<bool>|
                {
                    &&& keep.len() == old(self)@.len()
                    &&& forall|i: int| 0 <= i < keep.len() ==> f.ensures((&old(self)@[i],), keep[i])
                    &&& final(self)@ == kept(old(self)@, keep)
                },
    {
        proof { use_type_invariant(&*self); }
        let len = self.length as usize;
        let ghost orig = self.data@;
        let ghost keep: Seq<bool> = Seq::empty();
        let mut write_idx: usize = 0;
        let mut read_idx: usize = 0;
        while read_idx < len
            invariant
                forall|x: &T| f.requires((x,)),
                len == old(self)@.len(),
                len <= N,
                old(self)@ == orig.take(len as int),
                self.length == old(self).length,
                write_idx <= read_idx <= len,
                self.data@.len() == N,
                orig.len() == N,
                forall|j: int| read_idx <= j < N ==> self.data@[j] == orig[j],
                keep.len() == read_idx,
                self.length as int == len,
                forall|i: int| 0 <= i < read_idx ==> f.ensures((&orig[i],), keep[i]),
                self.data@.take(write_idx as int) == kept(orig.take(read_idx as int), keep),
            decreases len - read_idx,
        {
            let x = self.data[read_idx];
            assert(x == orig[read_idx as int]);
            let b = f(&x);
            let ghost old_keep = keep;
            proof {
                keep = keep.push(b);
            }
            assert(orig.take(read_idx + 1).drop_last() =~= orig.take(read_idx as int));
            assert(keep.drop_last() =~= old_keep);
            assert(orig.take(read_idx + 1).last() == x);
            if b {
                let ghost prev = self.data@;
                self.data[write_idx] = x;
                assert(self.data@.take(write_idx + 1) =~= prev.take(write_idx as int).push(x));
                write_idx = write_idx + 1;
            }
            read_idx = read_idx + 1;
        }
        assert(orig.take(read_idx as int) =~= old(self)@);
        self.length = write_idx as u16;
        assert(self@ =~= kept(old(self)@, keep));
    }

    /// Removes the item at `index`, shifting later items left.
    pub fn remove(&mut self, index: usize)
        requires
            index < old(self)@.len(),
        ensures
            final(self)@ == without(old(self)@, index as int),
        no_unwind
    {
        proof { use_type_invariant(&*self); }
        let len = self.length as usize;
        let mut i = index;
        while i + 1 < len
            invariant
                len == old(self)@.len(),
                len <= N,
                index <= i < len,
                self.length == old(self).length,
                self.length as int == len,
                self.data@.len() == N,
                forall|j: int| 0 <= j < index ==> self.data@[j] == old(self)@[j],
                forall|j: int| index <= j < i ==> self.data@[j] == old(self)@[j + 1],
                forall|j: int| i <= j < len ==> self.data@[j] == old(self)@[j],
            decreases len - i,
        {
            let next = self.data[i + 1];
            self.data[i] = next;
            i = i + 1;
        }
        self.length = self.length - 1;
        assert(self@ =~= without(old(self)@, index as int));
    }

    /// Removes and returns the first item.
    pub fn dequeue_front(&mut self) -> (r: Option<T>)
        ensures
            old(self)@.len() == 0 ==> r is None && final(self)@ == old(self)@,
            old(self)@.len() > 0 ==> r == Some(old(self)@[0]) && final(self)@
                == old(self)@.drop_first(),
    {
        proof { use_type_invariant(&*self); }
        if self.length == 0 {
            return None;
        }
        let item = self.data[0];
        self.remove(0);
        assert(without(old(self)@, 0) =~= old(self)@.drop_first());
        Some(item)
    }

    /// The first item, if there is one.
    pub fn front(&self) -> (r: Option<&T>)
        ensures
            self@.len() == 0 ==> r is None,
            self@.len() > 0 ==> r == Some(&self@[0]),
    {
        proof { use_type_invariant(self); }
        if self.length == 0 {
            None
        } else {
            Some(&self.data[0])
        }
    }
}

impl<const N: usize> HeaplessVec<u8, N> {
    /// An empty byte vector.
    pub fn const_new() -> (r: Self)
        ensures
            r@ == Seq::<u8>::empty(),
    {
        let r = HeaplessVec { length: 0, data: [0u8; N] };
        assert(r@ =~= Seq::<u8>::empty());
        r
    }

    /// A byte vector filled with `n` up to its limit.
    pub fn repeat(n: u8) -> (r: Self)
        ensures
            r@ == Seq::new(Self::limit(), |i: int| n),
    {
        let mut v = Self::const_new();
        let cap: usize = if N <= 65535 { N } else { 65535 };
        let mut i: usize = 0;
        while i < cap
            invariant
                cap == Self::limit(),
                i <= cap,
                v@ == Seq::new(i as nat, |k: int| n),
            decreases cap - i,
        {
            let pushed = v.push(n);
            assert(pushed is Ok);
            i = i + 1;
            assert(v@ =~= Seq::new(i as nat, |k: int| n));
        }
        v
    }
}

impl<T: Copy, const N: usize> Clone for HeaplessVec<T, N> {
    fn clone(&self) -> (r: Self)
        ensures
            r == *self,
    {
        *self
    }
}

impl<T: Copy, const N: usize> core::ops::Deref for HeaplessVec<T, N> {
    type Target = [T];

    fn deref(&self) -> (r: &[T])
        ensures
            r@ == self@,
    {
        self.as_slice()
    }
}

impl<'a, T: Copy, const N: usize> IntoIterator for &'a HeaplessVec<T, N> {
    type Item = &'a T;
    type IntoIter = core::slice::Iter<'a, T>;

    fn into_iter(self) -> (r: core::slice::Iter<'a, T>)
        ensures
            vstd::std_specs::slice::into_iter_elts(r) == self@,
    {
        let s = self.as_slice();
        let it = s.iter();
        proof {
            broadcast use vstd::std_specs::slice::axiom_spec_slice_iter;

            assert(s@.as_ref().unref() =~= s@);
        }
        it
    }
}

#[verifier::external_type_specification]
#[verifier::external_body]
pub struct ExFmtError(core::fmt::Error);

impl<const N: usize> core::fmt::Write for HeaplessString<N> {
    /// Appends as much of `s` as fits; never fails.
    fn write_str(&mut self, s: &str) -> (r: core::fmt::Result)
        ensures
            r is Ok,
            final(self)@ == old(self)@ + s.spec_bytes().take(
                vstd::math::min(s.spec_bytes().len() as int, Self::limit() - old(self)@.len()),
            ),
    {
        self.write_truncating(s);
        Ok(())
    }
}

} // verus!
