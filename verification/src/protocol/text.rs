//! Byte-level text helpers: UTF-8 validation and character encoding.
use vstd::prelude::*;
use vstd::utf8::*;
use vstd::string::*;

verus! {

/// The UTF-8 encoding of one character.
pub open spec fn char_bytes(c: char) -> Seq<u8> {
    encode_utf8(seq![c])
}

/// Checks `bytes` with `core::str::from_utf8`.
///
/// Trusted: `from_utf8` succeeds exactly when `bytes` is well-formed UTF-8, and the
/// string it hands back is made of those very bytes.
#[verifier::external_body]
pub(crate) fn utf8_str<'a>(bytes: &'a [u8]) -> (r: Option<&'a str>)
    ensures
        r is Some <==> valid_utf8(bytes@),
        r matches Some(s) ==> s.spec_bytes() == bytes@,
{
    core::str::from_utf8(bytes).ok()
}

/// Encodes one character in UTF-8: the first `r.1` bytes of `r.0` are its encoding.
pub(crate) fn encode_char(c: char) -> (r: ([u8; 4], usize))
    ensures
        1 <= r.1 <= 4,
        r.1 == char_bytes(c).len(),
        r.0@.take(r.1 as int) == char_bytes(c),
{
    let v = c as u32;
    proof {
        char_is_scalar(c);
        let one = seq![c];
        assert(one[0] == c);
        assert(one.drop_first() =~= Seq::<char>::empty());
        assert(encode_utf8(one.drop_first()) =~= Seq::<u8>::empty());
        assert(encode_utf8(one) == encode_scalar(v) + encode_utf8(one.drop_first()));
        assert(char_bytes(c) =~= encode_scalar(v));
    }
    let mut buf = [0u8; 4];
    if v <= 0x7F {
        buf[0] = (v & 0x7F) as u8;
        assert(buf@.take(1) =~= encode_scalar(v));
        (buf, 1)
    } else if v <= 0x7FF {
        buf[0] = 0xC0 | ((v >> 6) & 0x1F) as u8;
        buf[1] = 0x80 | (v & 0x3F) as u8;
        assert(buf@.take(2) =~= encode_scalar(v));
        (buf, 2)
    } else if v <= 0xFFFF {
        buf[0] = 0xE0 | ((v >> 12) & 0x0F) as u8;
        buf[1] = 0x80 | ((v >> 6) & 0x3F) as u8;
        buf[2] = 0x80 | (v & 0x3F) as u8;
        assert(buf@.take(3) =~= encode_scalar(v));
        (buf, 3)
    } else {
        buf[0] = 0xF0 | ((v >> 18) & 0x7) as u8;
        buf[1] = 0x80 | ((v >> 12) & 0x3F) as u8;
        buf[2] = 0x80 | ((v >> 6) & 0x3F) as u8;
        buf[3] = 0x80 | (v & 0x3F) as u8;
        assert(buf@.take(4) =~= encode_scalar(v));
        (buf, 4)
    }
}

/// True when the two byte slices hold the same bytes.
pub fn bytes_equal(a: &[u8], b: &[u8]) -> (r: bool)
    ensures
        r == (a@ == b@),
{
    if a.len() != b.len() {
        return false;
    }
    let mut i: usize = 0;
    while i < a.len()
        invariant
            a@.len() == b@.len(),
            i <= a@.len(),
            a@.take(i as int) == b@.take(i as int),
        decreases a@.len() - i,
    {
        if a[i] != b[i] {
            assert(a@[i as int] != b@[i as int]);
            return false;
        }
        assert(a@.take(i + 1) =~= a@.take(i as int).push(a@[i as int]));
        assert(b@.take(i + 1) =~= b@.take(i as int).push(b@[i as int]));
        i = i + 1;
    }
    assert(a@ =~= a@.take(i as int));
    assert(b@ =~= b@.take(i as int));
    true
}

} // verus!
