//! Wire primitives: the remaining-length integer and length-prefixed strings.
use vstd::prelude::*;
use vstd::string::*;
use vstd::utf8::*;
use crate::protocol::error::ProtocolError;
use crate::protocol::text::utf8_str;
use crate::protocol::heapless::{HeaplessString, HeaplessVec};

verus! {

/// Largest value the remaining-length field can carry.
pub const MAX_VARIABLE_LENGTH: usize = 268_435_455;

proof fn lemma_encode_digits(v: int, d0: int, d1: int, d2: int, d3: int, k: int)
    requires
        0 <= d0 < 128, 0 <= d1 < 128, 0 <= d2 < 128, 0 <= d3 < 128,
        1 <= k <= 4,
        k == 1 ==> v == d0,
        k == 2 ==> v == d0 + d1 * 128 && d1 > 0,
        k == 3 ==> v == d0 + d1 * 128 + d2 * 16384 && d2 > 0,
        k == 4 ==> v == d0 + d1 * 128 + d2 * 16384 + d3 * 2097152 && d3 > 0,
    ensures
        k == 1 ==> spec_encode_varint(v as nat) == seq![d0 as u8],
        k == 2 ==> spec_encode_varint(v as nat) == seq![(d0 + 128) as u8, d1 as u8],
        k == 3 ==> spec_encode_varint(v as nat) == seq![(d0 + 128) as u8, (d1 + 128) as u8, d2 as u8],
        k == 4 ==> spec_encode_varint(v as nat) == seq![
            (d0 + 128) as u8,
            (d1 + 128) as u8,
            (d2 + 128) as u8,
            d3 as u8,
        ],
{
    reveal_with_fuel(spec_encode_varint, 5);
    if k >= 2 {
        let v1 = d1 + d2 * 128 + d3 * 16384;
        assert(v % 128 == d0 && v / 128 == (if k == 2 { d1 } else if k == 3 { d1 + d2 * 128 } else { v1 })) by (nonlinear_arith)
            requires
                0 <= d0 < 128, 0 <= d1 < 128, 0 <= d2 < 128, 0 <= d3 < 128, 2 <= k <= 4,
                v1 == d1 + d2 * 128 + d3 * 16384,
                k == 2 ==> v == d0 + d1 * 128,
                k == 3 ==> v == d0 + d1 * 128 + d2 * 16384,
                k == 4 ==> v == d0 + d1 * 128 + d2 * 16384 + d3 * 2097152;
        if k >= 3 {
            let w = v / 128;
            assert(w % 128 == d1 && w / 128 == (if k == 3 { d2 } else { d2 + d3 * 128 })) by (nonlinear_arith)
                requires
                    0 <= d1 < 128, 0 <= d2 < 128, 0 <= d3 < 128, 3 <= k <= 4,
                    k == 3 ==> w == d1 + d2 * 128,
                    k == 4 ==> w == d1 + d2 * 128 + d3 * 16384;
            if k == 4 {
                let x = w / 128;
                assert(x % 128 == d2 && x / 128 == d3) by (nonlinear_arith)
                    requires 0 <= d2 < 128, 0 <= d3 < 128, x == d2 + d3 * 128;
            }
        }
    }
}

/// A remaining-length field that takes exactly as many bytes as the value it holds needs
/// is the encoding of that value.
#[verifier::rlimit(40)]
#[verifier::spinoff_prover]
pub proof fn lemma_varint_canonical(s: Seq<u8>)
    requires
        spec_read_varint(s) is Ok,
        spec_read_varint(s)->Ok_0.1 == spec_varint_len(spec_read_varint(s)->Ok_0.0 as int),
    ensures
        spec_read_varint(s)->Ok_0.1 <= s.len(),
        s.take(spec_read_varint(s)->Ok_0.1 as int) == spec_encode_varint(spec_read_varint(s)->Ok_0.0 as nat),
{
    let v = spec_read_varint(s)->Ok_0.0 as int;
    let k = spec_read_varint(s)->Ok_0.1 as int;
    let d0 = s[0] as int % 128;
    if s[0] < 128 {
        assert(spec_read_varint_from(s, 0, 0, 1) == Ok::<(usize, usize), ProtocolError>((d0 as usize, 1usize)));
        lemma_encode_digits(v, d0, 0, 0, 0, 1);
        assert(s.take(1) =~= seq![d0 as u8]);
    } else {
        assert(spec_read_varint_from(s, 0, 0, 1) == spec_read_varint_from(s, 1, d0, 128));
        let d1 = s[1] as int % 128;
        if s[1] < 128 {
            assert(spec_read_varint_from(s, 1, d0, 128) == Ok::<(usize, usize), ProtocolError>(((d0 + d1 * 128) as usize, 2usize)));
            lemma_encode_digits(v, d0, d1, 0, 0, 2);
            assert(s.take(2) =~= seq![(d0 + 128) as u8, d1 as u8]);
        } else {
            assert(spec_read_varint_from(s, 1, d0, 128) == spec_read_varint_from(s, 2, d0 + d1 * 128, 16384));
            let d2 = s[2] as int % 128;
            if s[2] < 128 {
                assert(spec_read_varint_from(s, 2, d0 + d1 * 128, 16384) == Ok::<(usize, usize), ProtocolError>(((d0 + d1 * 128 + d2 * 16384) as usize, 3usize)));
                lemma_encode_digits(v, d0, d1, d2, 0, 3);
                assert(s.take(3) =~= seq![(d0 + 128) as u8, (d1 + 128) as u8, d2 as u8]);
            } else {
                assert(spec_read_varint_from(s, 2, d0 + d1 * 128, 16384) == spec_read_varint_from(s, 3, d0 + d1 * 128 + d2 * 16384, 2097152));
                let d3 = s[3] as int % 128;
                let v3 = d0 + d1 * 128 + d2 * 16384 + d3 * 2097152;
                if s[3] >= 128 {
                    assert(spec_read_varint_from(s, 3, d0 + d1 * 128 + d2 * 16384, 2097152)
                        == spec_read_varint_from(s, 4, v3, 268435456));
                    assert(spec_read_varint_from(s, 4, v3, 268435456) is Err);
                }
                assert(spec_read_varint_from(s, 3, d0 + d1 * 128 + d2 * 16384, 2097152) == Ok::<(usize, usize), ProtocolError>(((d0 + d1 * 128 + d2 * 16384 + d3 * 2097152) as usize, 4usize)));
                lemma_encode_digits(v, d0, d1, d2, d3, 4);
                assert(s.take(4) =~= seq![(d0 + 128) as u8, (d1 + 128) as u8, (d2 + 128) as u8, d3 as u8]);
            }
        }
    }
}

/// Two bytes read as a number are written back as the same two bytes.
pub proof fn lemma_be_back(hi: u8, lo: u8)
    ensures
        be_value(hi, lo) as int == hi as int * 256 + lo as int,
        be_bytes(be_value(hi, lo) as int) == seq![hi, lo],
{
    let l = hi as int * 256 + lo as int;
    assert(0 <= l < 65536) by (nonlinear_arith)
        requires 0 <= hi < 256, 0 <= lo < 256, l == hi as int * 256 + lo as int;
    assert((l / 256) % 256 == hi as int && l % 256 == lo as int) by (nonlinear_arith)
        requires l == hi as int * 256 + lo as int, 0 <= hi < 256, 0 <= lo < 256;
    assert(be_bytes(l) =~= seq![hi, lo]);
}

/// A length-prefixed field that reads successfully is its length prefix followed by the
/// bytes read.
pub proof fn lemma_read_binary_back(bytes: Seq<u8>, offset: int)
    requires
        0 <= offset,
        spec_read_binary(bytes, offset).0 is Ok,
    ensures
        ({
            let (r, next) = spec_read_binary(bytes, offset);
            let d = r->Ok_0;
            &&& next == offset + 2 + d.len()
            &&& next <= bytes.len()
            &&& d.len() < 65536
            &&& bytes.subrange(offset, next) == length_prefixed(d)
        }),
{
    let hi = bytes[offset];
    let lo = bytes[offset + 1];
    let l = be_value(hi, lo) as int;
    lemma_be_back(hi, lo);
    let d = bytes.subrange(offset + 2, offset + 2 + l);
    assert(bytes.subrange(offset, offset + 2 + l) =~= length_prefixed(d));
}

/// Number of bytes the remaining-length encoding of `value` takes.
pub open spec fn spec_varint_len(value: int) -> int {
    if value < 128 {
        1
    } else if value < 16384 {
        2
    } else if value < 2097152 {
        3
    } else {
        4
    }
}

/// The remaining-length encoding of `value`: seven bits per byte, least significant
/// group first, the high bit set on every byte but the last.
pub open spec fn spec_encode_varint(value: nat) -> Seq<u8>
    decreases value,
{
    if value < 128 {
        seq![value as u8]
    } else {
        seq![(value % 128 + 128) as u8] + spec_encode_varint(value / 128)
    }
}

/// Decoding of a remaining-length field from position `i`, with `value` gathered so far
/// and `mult` the weight of byte `i`: the value and the number of bytes read, or why not.
pub open spec fn spec_read_varint_from(bytes: Seq<u8>, i: nat, value: int, mult: int) -> Result<
    (usize, usize),
    ProtocolError,
>
    decreases 5 - i,
{
    if i >= bytes.len() {
        Err(ProtocolError::IncompletePacket { available: bytes.len() as usize })
    } else if i >= 5 {
        Err(ProtocolError::InvalidPacketLength { expected: MAX_VARIABLE_LENGTH, actual: value as usize })
    } else {
        let b = bytes[i as int];
        let v = value + (b % 128) * mult;
        if v > MAX_VARIABLE_LENGTH {
            Err(ProtocolError::InvalidPacketLength { expected: MAX_VARIABLE_LENGTH, actual: v as usize })
        } else if mult * 128 > 268435456 {
            Err(ProtocolError::InvalidPacketLength { expected: MAX_VARIABLE_LENGTH, actual: v as usize })
        } else if b < 128 {
            Ok((v as usize, (i + 1) as usize))
        } else {
            spec_read_varint_from(bytes, i + 1, v, mult * 128)
        }
    }
}

/// Decoding of the remaining-length field at the start of `bytes`.
pub open spec fn spec_read_varint(bytes: Seq<u8>) -> Result<(usize, usize), ProtocolError> {
    spec_read_varint_from(bytes, 0, 0, 1)
}

/// `old` with `data` written over it from position `offset`.
pub open spec fn splice(old: Seq<u8>, offset: int, data: Seq<u8>) -> Seq<u8> {
    old.take(offset) + data + old.skip(offset + data.len())
}

/// Writing two pieces one after the other writes their concatenation.
pub proof fn lemma_splice_concat(x: Seq<u8>, a: int, d1: Seq<u8>, d2: Seq<u8>)
    requires
        0 <= a,
        a + d1.len() + d2.len() <= x.len(),
    ensures
        splice(splice(x, a, d1), a + d1.len(), d2) == splice(x, a, d1 + d2),
        splice(x, a, d1).len() == x.len(),
{
    assert(splice(splice(x, a, d1), a + d1.len(), d2) =~= splice(x, a, d1 + d2));
}

/// The two bytes of `value`, most significant first.
pub open spec fn be_bytes(value: int) -> Seq<u8> {
    seq![((value / 256) % 256) as u8, (value % 256) as u8]
}

/// The number that two bytes stand for, most significant first.
pub open spec fn be_value(hi: u8, lo: u8) -> u16 {
    (hi as int * 256 + lo as int) as u16
}

/// `data` prefixed with its length as two bytes, as MQTT writes strings and binary data.
pub open spec fn length_prefixed(data: Seq<u8>) -> Seq<u8> {
    be_bytes(data.len() as int) + data
}

/// Reading a length-prefixed field at `offset`: the bytes or the error, and the offset after it.
pub open spec fn spec_read_binary(bytes: Seq<u8>, offset: int) -> (Result<Seq<u8>, ProtocolError>, int) {
    let n = bytes.len() as int;
    if offset + 2 > n {
        (Err(ProtocolError::IncompletePacket { available: n as usize }), offset)
    } else {
        let l = be_value(bytes[offset], bytes[offset + 1]) as int;
        if offset + 2 + l > n {
            (Err(ProtocolError::IncompletePacket { available: n as usize }), offset + 2)
        } else {
            (Ok(bytes.subrange(offset + 2, offset + 2 + l)), offset + 2 + l)
        }
    }
}

/// Reading a length-prefixed UTF-8 string at `offset`.
pub open spec fn spec_read_string(bytes: Seq<u8>, offset: int) -> (Result<Seq<u8>, ProtocolError>, int) {
    let (r, next) = spec_read_binary(bytes, offset);
    match r {
        Ok(s) => if valid_utf8(s) {
            (Ok(s), next)
        } else {
            (Err(ProtocolError::InvalidUtf8String), next)
        },
        Err(e) => (Err(e), next),
    }
}

pub proof fn lemma_varint_len(value: nat)
    requires
        value <= MAX_VARIABLE_LENGTH,
    ensures
        spec_encode_varint(value).len() == spec_varint_len(value as int),
        1 <= spec_encode_varint(value).len() <= 4,
{
    reveal_with_fuel(spec_encode_varint, 5);
    if value >= 128 {
        let v1 = value / 128;
        if v1 >= 128 {
            let v2 = v1 / 128;
            if v2 >= 128 {
                let v3 = v2 / 128;
                assert(v3 < 128);
            }
        }
    }
}

/// The remaining-length field reads back as the value it encodes, whatever follows it.
#[verifier::rlimit(40)]
#[verifier::spinoff_prover]
pub proof fn lemma_varint_roundtrip(value: nat, rest: Seq<u8>)
    requires
        value <= MAX_VARIABLE_LENGTH,
    ensures
        spec_read_varint(spec_encode_varint(value) + rest) == Ok::<(usize, usize), ProtocolError>(
            (value as usize, spec_varint_len(value as int) as usize),
        ),
{
    reveal_with_fuel(spec_encode_varint, 5);
    reveal_with_fuel(spec_read_varint_from, 6);
    let s = spec_encode_varint(value) + rest;
    let d0 = value % 128;
    let v1 = value / 128;
    if value < 128 {
        assert(s[0] == value as u8);
    } else {
        assert(s[0] == (d0 + 128) as u8);
        let d1 = v1 % 128;
        let v2 = v1 / 128;
        if v1 < 128 {
            assert(s[1] == v1 as u8);
            assert(d0 + v1 * 128 == value);
        } else {
            assert(s[1] == (d1 + 128) as u8);
            let d2 = v2 % 128;
            let v3 = v2 / 128;
            if v2 < 128 {
                assert(s[2] == v2 as u8);
                assert(d0 + d1 * 128 + v2 * 16384 == value);
            } else {
                assert(s[2] == (d2 + 128) as u8);
                assert(v3 < 128);
                assert(s[3] == v3 as u8);
                assert(d0 + d1 * 128 + d2 * 16384 + v3 * 2097152 == value);
            }
        }
    }
}

/// Two bytes written most significant first read back as the number they were written from.
pub proof fn lemma_be_roundtrip(value: int)
    requires
        0 <= value < 65536,
    ensures
        be_value(be_bytes(value)[0], be_bytes(value)[1]) == value,
{
    let hi = (value / 256) % 256;
    let lo = value % 256;
    assert(value / 256 < 256) by (nonlinear_arith)
        requires 0 <= value < 65536;
    assert(hi * 256 + lo == value) by (nonlinear_arith)
        requires 0 <= value < 65536, hi == (value / 256) % 256, lo == value % 256, value / 256 < 256;
}

/// A length-prefixed field reads back as the bytes it was written from.
pub proof fn lemma_read_prefixed(pre: Seq<u8>, data: Seq<u8>, post: Seq<u8>)
    requires
        data.len() < 65536,
    ensures
        spec_read_binary(pre + length_prefixed(data) + post, pre.len() as int) == (
            Ok::<Seq<u8>, ProtocolError>(data),
            (pre.len() + 2 + data.len()) as int,
        ),
{
    let s = pre + length_prefixed(data) + post;
    let o = pre.len() as int;
    lemma_be_roundtrip(data.len() as int);
    assert(s[o] == be_bytes(data.len() as int)[0]);
    assert(s[o + 1] == be_bytes(data.len() as int)[1]);
    assert(s.subrange(o + 2, o + 2 + data.len()) =~= data);
}

/// Number of bytes the remaining-length encoding of `value` takes.
pub fn variable_length_length(value: usize) -> (r: usize)
    ensures
        r == spec_varint_len(value as int),
{
    if value < 128 {
        1
    } else if value < 16384 {
        2
    } else if value < 2097152 {
        3
    } else {
        4
    }
}

/// Decodes the remaining-length field at `offset`, as if the slice began there.
pub fn read_variable_length_at(bytes: &[u8], offset: usize) -> (r: Result<(usize, usize), ProtocolError>)
    requires
        offset <= bytes@.len(),
    ensures
        r == spec_read_varint(bytes@.skip(offset as int)),
{
    let ghost s = bytes@.skip(offset as int);
    let blen = bytes.len();
    let avail = blen - offset;
    let mut multiplier: u64 = 1;
    let mut value: u64 = 0;
    let mut bytes_read: usize = 0;
    loop
        invariant
            offset <= bytes@.len(),
            avail == s.len(),
            avail == bytes@.len() - offset,
            blen == bytes@.len(),
            s == bytes@.skip(offset as int),
            bytes_read <= 4,
            bytes_read == 0 ==> multiplier == 1,
            bytes_read == 1 ==> multiplier == 128,
            bytes_read == 2 ==> multiplier == 16384,
            bytes_read == 3 ==> multiplier == 2097152,
            bytes_read == 4 ==> multiplier == 268435456,
            value <= MAX_VARIABLE_LENGTH,
            spec_read_varint(s) == spec_read_varint_from(s, bytes_read as nat, value as int, multiplier as int),
        decreases 5 - bytes_read,
    {
        if bytes_read >= avail {
            return Err(ProtocolError::IncompletePacket { available: avail });
        }
        let byte = bytes[offset + bytes_read];
        assert(byte == s[bytes_read as int]);
        bytes_read = bytes_read + 1;
        assert((byte % 128) as u64 * multiplier <= 127 * 268435456) by (nonlinear_arith)
            requires byte % 128 <= 127, multiplier <= 268435456;
        value = value + (byte % 128) as u64 * multiplier;
        if value > MAX_VARIABLE_LENGTH as u64 {
            return Err(
                ProtocolError::InvalidPacketLength {
                    expected: MAX_VARIABLE_LENGTH,
                    actual: value as usize,
                },
            );
        }
        multiplier = multiplier * 128;
        if multiplier > 268435456 {
            return Err(
                ProtocolError::InvalidPacketLength {
                    expected: MAX_VARIABLE_LENGTH,
                    actual: value as usize,
                },
            );
        }
        if byte < 128 {
            return Ok((value as usize, bytes_read));
        }
    }
}

/// Decodes the remaining-length field at the start of `bytes`: its value and the number
/// of bytes it took.
pub fn read_variable_length(bytes: &[u8]) -> (r: Result<(usize, usize), ProtocolError>)
    ensures
        r == spec_read_varint(bytes@),
{
    assert(bytes@.skip(0) =~= bytes@);
    read_variable_length_at(bytes, 0)
}

/// Writes the remaining-length encoding of `value` at `offset`, as if the slice began there.
pub fn write_variable_length_at(value: usize, buffer: &mut [u8], offset: usize) -> (r: Result<
    usize,
    ProtocolError,
>)
    requires
        offset <= old(buffer)@.len(),
    ensures
        final(buffer)@.len() == old(buffer)@.len(),
        value > MAX_VARIABLE_LENGTH ==> r == Err::<usize, ProtocolError>(
            ProtocolError::InvalidPacketLength { expected: MAX_VARIABLE_LENGTH, actual: value },
        ) && final(buffer)@ == old(buffer)@,
        value <= MAX_VARIABLE_LENGTH && offset + spec_varint_len(value as int) <= old(buffer)@.len()
            ==> r == Ok::<usize, ProtocolError>(spec_varint_len(value as int) as usize)
            && final(buffer)@ == splice(old(buffer)@, offset as int, spec_encode_varint(value as nat)),
        value <= MAX_VARIABLE_LENGTH && offset + spec_varint_len(value as int) > old(buffer)@.len()
            ==> r == Err::<usize, ProtocolError>(
            ProtocolError::BufferTooSmall { buffer_size: (old(buffer)@.len() - offset) as usize },
        ) && final(buffer)@ == old(buffer)@.take(offset as int) + spec_encode_varint(value as nat).take(
            old(buffer)@.len() - offset,
        ),
{
    if value > MAX_VARIABLE_LENGTH {
        return Err(
            ProtocolError::InvalidPacketLength { expected: MAX_VARIABLE_LENGTH, actual: value },
        );
    }
    proof {
        lemma_varint_len(value as nat);
    }
    let ghost enc = spec_encode_varint(value as nat);
    let mut encoded = value;
    let mut written: usize = 0;
    loop
        invariant_except_break
            written > 0 ==> encoded > 0,
        invariant
            offset <= buffer@.len(),
            buffer@.len() == old(buffer)@.len(),
            enc == spec_encode_varint(value as nat),
            enc.len() == spec_varint_len(value as int),
            value <= MAX_VARIABLE_LENGTH,
            written == 0 ==> encoded == value,
            written < enc.len() || encoded == 0,
            written <= enc.len(),
            offset + written <= buffer@.len(),
            enc == enc.take(written as int) + (if written == 0 || encoded > 0 {
                spec_encode_varint(encoded as nat)
            } else {
                Seq::empty()
            }),
            buffer@ == splice(old(buffer)@, offset as int, enc.take(written as int)),
        ensures
            encoded == 0,
            written > 0,
            buffer@ == splice(old(buffer)@, offset as int, enc.take(written as int)),
            enc == enc.take(written as int),
        decreases enc.len() - written,
    {
        if offset + written >= buffer.len() {
            proof {
                assert(written < enc.len());
                assert(buffer@ =~= old(buffer)@.take(offset as int) + enc.take(
                    old(buffer)@.len() - offset,
                ));
            }
            return Err(ProtocolError::BufferTooSmall { buffer_size: buffer.len() - offset });
        }
        let ghost tail = spec_encode_varint(encoded as nat);
        let mut byte = (encoded % 128) as u8;
        let next = encoded / 128;
        if next > 0 {
            byte = byte + 128;
        }
        proof {
            reveal_with_fuel(spec_encode_varint, 2);
            assert(tail[0] == byte);
            assert(enc =~= enc.take(written as int) + tail);
            assert(enc[written as int] == byte);
            if next > 0 {
                assert(tail =~= seq![byte] + spec_encode_varint(next as nat));
            } else {
                assert(tail =~= seq![byte]);
            }
        }
        buffer[offset + written] = byte;
        encoded = next;
        written = written + 1;
        proof {
            assert(enc.take(written as int) =~= enc.take(written - 1).push(byte));
            assert(buffer@ =~= splice(old(buffer)@, offset as int, enc.take(written as int)));
            if encoded == 0 {
                assert(enc =~= enc.take(written as int));
            } else {
                assert(enc =~= enc.take(written as int) + spec_encode_varint(encoded as nat));
            }
        }
        if encoded == 0 {
            break;
        }
    }
    assert(enc.take(written as int) =~= enc);
    Ok(written)
}

/// Writes the remaining-length encoding of `value` at the start of `buffer`, returning the
/// number of bytes written.
pub fn write_variable_length(value: usize, buffer: &mut [u8]) -> (r: Result<usize, ProtocolError>)
    ensures
        final(buffer)@.len() == old(buffer)@.len(),
        value > MAX_VARIABLE_LENGTH ==> r == Err::<usize, ProtocolError>(
            ProtocolError::InvalidPacketLength { expected: MAX_VARIABLE_LENGTH, actual: value },
        ) && final(buffer)@ == old(buffer)@,
        value <= MAX_VARIABLE_LENGTH && spec_varint_len(value as int) <= old(buffer)@.len() ==> r
            == Ok::<usize, ProtocolError>(spec_varint_len(value as int) as usize)
            && final(buffer)@ == splice(old(buffer)@, 0, spec_encode_varint(value as nat)),
        value <= MAX_VARIABLE_LENGTH && spec_varint_len(value as int) > old(buffer)@.len() ==> r
            == Err::<usize, ProtocolError>(
            ProtocolError::BufferTooSmall { buffer_size: old(buffer)@.len() as usize },
        ) && final(buffer)@ == spec_encode_varint(value as nat).take(old(buffer)@.len() as int),
{
    let r = write_variable_length_at(value, buffer, 0);
    assert(old(buffer)@.take(0) + spec_encode_varint(value as nat).take(old(buffer)@.len() as int)
        =~= spec_encode_varint(value as nat).take(old(buffer)@.len() as int));
    r
}

/// Reads two bytes at `offset` as a big-endian number.
pub fn read_u16_be(bytes: &[u8], offset: usize) -> (r: u16)
    requires
        offset + 2 <= bytes@.len(),
    ensures
        r == be_value(bytes@[offset as int], bytes@[offset + 1]),
{
    (bytes[offset] as u16) * 256 + bytes[offset + 1] as u16
}

/// Writes `value` at `offset` as two bytes, most significant first.
pub fn write_u16_be(value: u16, buffer: &mut [u8], offset: usize)
    requires
        offset + 2 <= old(buffer)@.len(),
    ensures
        final(buffer)@ == splice(old(buffer)@, offset as int, be_bytes(value as int)),
{
    buffer[offset] = (value / 256) as u8;
    buffer[offset + 1] = (value % 256) as u8;
    assert(final(buffer)@ =~= splice(old(buffer)@, offset as int, be_bytes(value as int)));
}

/// Copies `data` into `buffer` at `offset`.
pub fn copy_bytes(data: &[u8], buffer: &mut [u8], offset: usize)
    requires
        offset + data@.len() <= old(buffer)@.len(),
    ensures
        final(buffer)@ == splice(old(buffer)@, offset as int, data@),
{
    let mut i: usize = 0;
    let blen = buffer.len();
    while i < data.len()
        invariant
            blen == buffer@.len(),
            buffer@.len() == old(buffer)@.len(),
            offset + data@.len() <= buffer@.len(),
            i <= data@.len(),
            buffer@ == splice(old(buffer)@, offset as int, data@.take(i as int)),
        decreases data@.len() - i,
    {
        buffer[offset + i] = data[i];
        assert(data@.take(i + 1) =~= data@.take(i as int).push(data@[i as int]));
        i = i + 1;
        assert(buffer@ =~= splice(old(buffer)@, offset as int, data@.take(i as int)));
    }
    assert(data@.take(i as int) =~= data@);
}

/// Reads a length-prefixed byte field at `*offset`, advancing `*offset` past what was read.
pub fn read_binary<'a>(bytes: &'a [u8], offset: &mut usize) -> (r: Result<&'a [u8], ProtocolError>)
    ensures
        ({
            let (sr, next) = spec_read_binary(bytes@, *old(offset) as int);
            &&& *final(offset) == next
            &&& match (r, sr) {
                (Ok(a), Ok(b)) => a@ == b,
                (Err(a), Err(b)) => a == b,
                _ => false,
            }
        }),
{
    let o = *offset;
    if bytes.len() < 2 || o > bytes.len() - 2 {
        return Err(ProtocolError::IncompletePacket { available: bytes.len() });
    }
    let len = read_u16_be(bytes, o) as usize;
    *offset = o + 2;
    if len > bytes.len() - (o + 2) {
        return Err(ProtocolError::IncompletePacket { available: bytes.len() });
    }
    let out = vstd::slice::slice_subrange(bytes, o + 2, o + 2 + len);
    *offset = o + 2 + len;
    Ok(out)
}

/// Reads a length-prefixed UTF-8 string at `*offset`, advancing `*offset` past what was read.
pub fn read_string<'a>(bytes: &'a [u8], offset: &mut usize) -> (r: Result<&'a str, ProtocolError>)
    ensures
        ({
            let (sr, next) = spec_read_string(bytes@, *old(offset) as int);
            &&& *final(offset) == next
            &&& match (r, sr) {
                (Ok(a), Ok(b)) => a.spec_bytes() == b,
                (Err(a), Err(b)) => a == b,
                _ => false,
            }
        }),
{
    let raw = read_binary(bytes, offset)?;
    match utf8_str(raw) {
        Some(s) => Ok(s),
        None => Err(ProtocolError::InvalidUtf8String),
    }
}

proof fn lemma_be_bytes_mod(len: int)
    requires
        len >= 0,
    ensures
        be_bytes(len % 65536) == be_bytes(len),
{
    assert((len % 65536) % 256 == len % 256) by (nonlinear_arith)
        requires len >= 0;
    assert(((len % 65536) / 256) % 256 == (len / 256) % 256) by (nonlinear_arith)
        requires len >= 0;
}

/// Writes `data` at `*offset` with its two-byte length prefix, advancing `*offset`; fails,
/// changing nothing, when it does not fit.
pub fn write_binary(data: &[u8], buffer: &mut [u8], offset: &mut usize) -> (r: Result<
    (),
    ProtocolError,
>)
    ensures
        *old(offset) + 2 + data@.len() > old(buffer)@.len() ==> r == Err::<(), ProtocolError>(
            ProtocolError::BufferTooSmall { buffer_size: old(buffer)@.len() as usize },
        ) && final(buffer)@ == old(buffer)@ && *final(offset) == *old(offset),
        *old(offset) + 2 + data@.len() <= old(buffer)@.len() ==> r is Ok && final(buffer)@
            == splice(old(buffer)@, *old(offset) as int, length_prefixed(data@)) && *final(offset)
            == *old(offset) + 2 + data@.len(),
{
    let o = *offset;
    let len = data.len();
    if len > buffer.len() || o > buffer.len() - len || buffer.len() - len - o < 2 {
        return Err(ProtocolError::BufferTooSmall { buffer_size: buffer.len() });
    }
    let ghost b0 = buffer@;
    let prefix: u16 = (len % 65536) as u16;
    write_u16_be(prefix, buffer, o);
    proof {
        lemma_be_bytes_mod(len as int);
    }
    copy_bytes(data, buffer, o + 2);
    assert(buffer@ =~= splice(b0, o as int, length_prefixed(data@)));
    *offset = o + 2 + len;
    Ok(())
}

/// Writes the bytes of `s` at `*offset` with their two-byte length prefix, advancing
/// `*offset`; fails, changing nothing, when they do not fit.
pub fn write_string(s: &str, buffer: &mut [u8], offset: &mut usize) -> (r: Result<(), ProtocolError>)
    ensures
        *old(offset) + 2 + s.spec_bytes().len() > old(buffer)@.len() ==> r == Err::<
            (),
            ProtocolError,
        >(ProtocolError::BufferTooSmall { buffer_size: old(buffer)@.len() as usize })
            && final(buffer)@ == old(buffer)@ && *final(offset) == *old(offset),
        *old(offset) + 2 + s.spec_bytes().len() <= old(buffer)@.len() ==> r is Ok && final(buffer)@ == splice(old(buffer)@, *old(offset) as int, length_prefixed(s.spec_bytes()))
            && *final(offset) == *old(offset) + 2 + s.spec_bytes().len(),
{
    write_binary(s.as_bytes(), buffer, offset)
}

/// The upper-case hexadecimal digit for `v`, below 16.
pub open spec fn hex_digit(v: int) -> u8 {
    if v < 10 {
        (48 + v) as u8
    } else {
        (55 + v) as u8
    }
}

/// The two hexadecimal digits of `b`.
pub open spec fn hex_pair(b: u8) -> Seq<u8> {
    seq![hex_digit(b as int / 16), hex_digit(b as int % 16)]
}

/// `bytes` in hexadecimal: two upper-case digits each, separated by single spaces.
pub open spec fn hex_text(bytes: Seq<u8>) -> Seq<u8>
    decreases bytes.len(),
{
    if bytes.len() == 0 {
        Seq::empty()
    } else if bytes.len() == 1 {
        hex_pair(bytes[0])
    } else {
        hex_text(bytes.drop_last()) + seq![32u8] + hex_pair(bytes.last())
    }
}

/// `s` cut at `limit` items.
pub open spec fn truncated<T>(s: Seq<T>, limit: nat) -> Seq<T> {
    s.take(vstd::math::min(s.len() as int, limit as int))
}

proof fn lemma_truncated_push<T>(s: Seq<T>, x: T, limit: nat)
    ensures
        truncated(s.push(x), limit) == if truncated(s, limit).len() < limit {
            truncated(s, limit).push(x)
        } else {
            truncated(s, limit)
        },
{
    if s.len() < limit {
        assert(truncated(s.push(x), limit) =~= s.push(x));
        assert(truncated(s, limit) =~= s);
    } else {
        assert(truncated(s.push(x), limit) =~= truncated(s, limit));
    }
}

fn hex_digit_of(v: u8) -> (r: u8)
    requires
        v < 16,
    ensures
        r == hex_digit(v as int),
{
    if v < 10 {
        48 + v
    } else {
        55 + v
    }
}

fn push_cut<const N: usize>(s: &mut HeaplessString<N>, b: u8, Ghost(full): Ghost<Seq<u8>>)
    requires
        b < 128,
        old(s)@ == truncated(full, HeaplessString::<N>::limit()),
    ensures
        final(s)@ == truncated(full.push(b), HeaplessString::<N>::limit()),
{
    proof {
        lemma_truncated_push(full, b, HeaplessString::<N>::limit());
    }
    let _ = s.push_byte(b);
}

/// `bytes` in hexadecimal, two upper-case digits each and separated by spaces, cut at the
/// string's capacity.
pub fn bytes_to_hex<const N: usize>(bytes: &[u8]) -> (r: HeaplessString<N>)
    ensures
        r@ == truncated(hex_text(bytes@), HeaplessString::<N>::limit()),
{
    let mut result = HeaplessString::<N>::new();
    let n = bytes.len();
    let mut i: usize = 0;
    assert(result@ =~= truncated(hex_text(bytes@.take(0)), HeaplessString::<N>::limit()));
    while i < n
        invariant
            n == bytes@.len(),
            i <= n,
            result@ == truncated(hex_text(bytes@.take(i as int)), HeaplessString::<N>::limit()),
        decreases n - i,
    {
        let b = bytes[i];
        let ghost before = hex_text(bytes@.take(i as int));
        let ghost t = bytes@.take(i + 1);
        assert(t.drop_last() =~= bytes@.take(i as int));
        assert(t.last() == b);
        let ghost lead: Seq<u8> = if i > 0 {
            before.push(32u8)
        } else {
            before
        };
        if i > 0 {
            push_cut(&mut result, 32, Ghost(before));
        }
        let hi = hex_digit_of(b / 16);
        let lo = hex_digit_of(b % 16);
        push_cut(&mut result, hi, Ghost(lead));
        push_cut(&mut result, lo, Ghost(lead.push(hi)));
        proof {
            if i == 0 {
                assert(before =~= Seq::<u8>::empty());
            }
            assert(lead.push(hi).push(lo) =~= hex_text(t));
        }
        i = i + 1;
    }
    assert(bytes@.take(n as int) =~= bytes@);
    result
}

/// Whether `c` is white space, as Unicode's White_Space property has it.
pub open spec fn is_white(c: char) -> bool {
    ||| ('\t' <= c && c <= '\r')
    ||| c == ' '
    ||| c == '\u{85}'
    ||| c == '\u{a0}'
    ||| c == '\u{1680}'
    ||| ('\u{2000}' <= c && c <= '\u{200a}')
    ||| c == '\u{2028}'
    ||| c == '\u{2029}'
    ||| c == '\u{202f}'
    ||| c == '\u{205f}'
    ||| c == '\u{3000}'
}

/// The value of hexadecimal digit `c`, or -1 for a character that is no such digit.
pub open spec fn hex_value(c: char) -> int {
    if '0' <= c && c <= '9' {
        c as int - 48
    } else if 'a' <= c && c <= 'f' {
        c as int - 87
    } else if 'A' <= c && c <= 'F' {
        c as int - 55
    } else {
        -1
    }
}

/// Whether every character of `d` is a hexadecimal digit.
pub open spec fn all_hex(d: Seq<char>) -> bool {
    forall|i: int| 0 <= i < d.len() ==> hex_value(#[trigger] d[i]) >= 0
}

/// The number the hexadecimal digits `d` write.
pub open spec fn digits_value(d: Seq<char>) -> int
    decreases d.len(),
{
    if d.len() == 0 {
        0
    } else {
        digits_value(d.drop_last()) * 16 + hex_value(d.last())
    }
}

/// A token read as a hexadecimal byte: an optional `+`, then at least one hexadecimal digit,
/// the number they write being at most 255.
pub open spec fn parse_hex_byte(t: Seq<char>) -> Option<u8> {
    let d = if t.len() > 0 && t[0] == '+' {
        t.drop_first()
    } else {
        t
    };
    if d.len() > 0 && all_hex(d) && digits_value(d) <= 255 {
        Some(digits_value(d) as u8)
    } else {
        None
    }
}

/// `vals` once the token `cur` has ended: its byte added when it reads as one.
pub open spec fn flush_token(vals: Seq<u8>, cur: Seq<char>) -> Seq<u8> {
    if cur.len() == 0 {
        vals
    } else {
        match parse_hex_byte(cur) {
            Some(v) => vals.push(v),
            None => vals,
        }
    }
}

/// Scanning `cs`: the bytes of the tokens ended so far, and the token under way.
pub open spec fn hex_scan(cs: Seq<char>) -> (Seq<u8>, Seq<char>)
    decreases cs.len(),
{
    if cs.len() == 0 {
        (Seq::empty(), Seq::empty())
    } else {
        let (vals, cur) = hex_scan(cs.drop_last());
        if is_white(cs.last()) {
            (flush_token(vals, cur), Seq::empty())
        } else {
            (vals, cur.push(cs.last()))
        }
    }
}

/// The bytes written in hexadecimal in the white-space separated tokens of `cs`; tokens
/// that do not read as a byte are skipped.
pub open spec fn hex_values(cs: Seq<char>) -> Seq<u8> {
    flush_token(hex_scan(cs).0, hex_scan(cs).1)
}

/// The characters of ASCII bytes.
pub open spec fn ascii_chars(bytes: Seq<u8>) -> Seq<char> {
    bytes.map_values(|x: u8| x as char)
}

proof fn lemma_hex_digit_value(v: int)
    requires
        0 <= v < 16,
    ensures
        hex_value(hex_digit(v) as char) == v,
        !is_white(hex_digit(v) as char),
        hex_digit(v) as char != '+',
{
}

proof fn lemma_scan_push(cs: Seq<char>, c: char)
    ensures
        hex_scan(cs.push(c)) == if is_white(c) {
            (flush_token(hex_scan(cs).0, hex_scan(cs).1), Seq::<char>::empty())
        } else {
            (hex_scan(cs).0, hex_scan(cs).1.push(c))
        },
{
    assert(cs.push(c).drop_last() =~= cs);
}

proof fn lemma_scan_hex_text(b: Seq<u8>)
    requires
        b.len() > 0,
    ensures
        hex_scan(ascii_chars(hex_text(b))) == (b.drop_last(), ascii_chars(hex_pair(b.last()))),
    decreases b.len(),
{
    let last = b.last();
    let d1 = hex_digit(last as int / 16);
    let d2 = hex_digit(last as int % 16);
    lemma_hex_digit_value(last as int / 16);
    lemma_hex_digit_value(last as int % 16);
    if b.len() == 1 {
        assert(hex_text(b) == hex_pair(b[0]));
        let cs = ascii_chars(hex_text(b));
        assert(cs =~= Seq::<char>::empty().push(d1 as char).push(d2 as char));
        lemma_scan_push(Seq::<char>::empty(), d1 as char);
        lemma_scan_push(Seq::<char>::empty().push(d1 as char), d2 as char);
        assert(b.drop_last() =~= Seq::<u8>::empty());
        assert(ascii_chars(hex_pair(b.last())) =~= seq![d1 as char, d2 as char]);
        assert(Seq::<char>::empty().push(d1 as char).push(d2 as char) =~= seq![d1 as char, d2 as char]);
    } else {
        let bp = b.drop_last();
        lemma_scan_hex_text(bp);
        let prev = ascii_chars(hex_text(bp));
        let tok = ascii_chars(hex_pair(bp.last()));
        assert(hex_text(b) == hex_text(bp) + seq![32u8] + hex_pair(last));
        let cs = ascii_chars(hex_text(b));
        assert(cs =~= prev.push(' ').push(d1 as char).push(d2 as char));
        lemma_scan_push(prev, ' ');
        lemma_scan_push(prev.push(' '), d1 as char);
        lemma_scan_push(prev.push(' ').push(d1 as char), d2 as char);
        let pl = bp.last();
        lemma_hex_digit_value(pl as int / 16);
        lemma_hex_digit_value(pl as int % 16);
        let e1 = hex_digit(pl as int / 16) as char;
        let e2 = hex_digit(pl as int % 16) as char;
        assert(tok =~= seq![e1, e2]);
        assert(token_digits(tok) =~= tok);
        assert(seq![e1, e2].drop_last() =~= seq![e1]);
        assert(seq![e1].drop_last() =~= Seq::<char>::empty());
        assert(digits_value(Seq::<char>::empty()) == 0);
        assert(seq![e1].last() == e1);
        assert(digits_value(seq![e1]) == hex_value(e1));
        assert(digits_value(tok) == (pl as int / 16) * 16 + pl as int % 16);
        assert(all_hex(tok)) by {
            assert forall|i: int| 0 <= i < tok.len() implies hex_value(#[trigger] tok[i]) >= 0 by {
                if i == 0 {
                    assert(tok[i] == e1);
                } else {
                    assert(tok[i] == e2);
                }
            }
        }
        assert(parse_hex_byte(tok) == Some(pl));
        assert(bp.drop_last().push(pl) =~= bp);
        assert(ascii_chars(hex_pair(last)) =~= Seq::<char>::empty().push(d1 as char).push(d2 as char));
    }
}

/// Writing bytes in hexadecimal and reading the text back gives the same bytes.
pub proof fn lemma_hex_roundtrip(b: Seq<u8>)
    ensures
        hex_values(ascii_chars(hex_text(b))) == b,
{
    if b.len() == 0 {
        assert(ascii_chars(hex_text(b)) =~= Seq::<char>::empty());
    } else {
        lemma_scan_hex_text(b);
        let last = b.last();
        lemma_hex_digit_value(last as int / 16);
        lemma_hex_digit_value(last as int % 16);
        let e1 = hex_digit(last as int / 16) as char;
        let e2 = hex_digit(last as int % 16) as char;
        let tok = ascii_chars(hex_pair(last));
        assert(tok =~= seq![e1, e2]);
        assert(token_digits(tok) =~= tok);
        assert(seq![e1, e2].drop_last() =~= seq![e1]);
        assert(seq![e1].drop_last() =~= Seq::<char>::empty());
        assert(digits_value(Seq::<char>::empty()) == 0);
        assert(seq![e1].last() == e1);
        assert(digits_value(seq![e1]) == hex_value(e1));
        assert(digits_value(tok) == (last as int / 16) * 16 + last as int % 16);
        assert(all_hex(tok)) by {
            assert forall|i: int| 0 <= i < tok.len() implies hex_value(#[trigger] tok[i]) >= 0 by {
                if i == 0 {
                    assert(tok[i] == e1);
                } else {
                    assert(tok[i] == e2);
                }
            }
        }
        assert(parse_hex_byte(tok) == Some(last));
        assert(b.drop_last().push(last) =~= b);
    }
}

fn is_white_char(c: char) -> (r: bool)
    ensures
        r == is_white(c),
{
    ('\t' <= c && c <= '\r') || c == ' ' || c == '\u{85}' || c == '\u{a0}' || c == '\u{1680}' || ('\u{2000}'
        <= c && c <= '\u{200a}') || c == '\u{2028}' || c == '\u{2029}' || c == '\u{202f}' || c == '\u{205f}'
        || c == '\u{3000}'
}

fn hex_value_of(c: char) -> (r: u8)
    ensures
        hex_value(c) >= 0 ==> r as int == hex_value(c),
        hex_value(c) < 0 ==> r == 255,
{
    if '0' <= c && c <= '9' {
        (c as u32 - 48) as u8
    } else if 'a' <= c && c <= 'f' {
        (c as u32 - 87) as u8
    } else if 'A' <= c && c <= 'F' {
        (c as u32 - 55) as u8
    } else {
        255
    }
}

/// The digits part of a token under way: the token without a leading `+`.
pub open spec fn token_digits(cur: Seq<char>) -> Seq<char> {
    if cur.len() > 0 && cur[0] == '+' {
        cur.drop_first()
    } else {
        cur
    }
}

proof fn lemma_hex_text_ascii(b: Seq<u8>)
    ensures
        forall|i: int| 0 <= i < hex_text(b).len() ==> #[trigger] hex_text(b)[i] < 128,
    decreases b.len(),
{
    if b.len() > 1 {
        lemma_hex_text_ascii(b.drop_last());
        let t = hex_text(b.drop_last());
        let last = b.last();
        assert forall|i: int| 0 <= i < hex_text(b).len() implies #[trigger] hex_text(b)[i] < 128 by {
            if i < t.len() {
                assert(hex_text(b)[i] == t[i]);
            }
        }
    }
}

/// Text that reads as the hexadecimal form of `b` is read back as `b`: the hex text of a
/// byte sequence, taken as a string, parses to those bytes.
pub proof fn lemma_hex_text_roundtrip(s: &str, b: Seq<u8>)
    requires
        s.spec_bytes() == hex_text(b),
    ensures
        hex_values(s@) == b,
{
    let t = hex_text(b);
    let cs = ascii_chars(t);
    lemma_hex_text_ascii(b);
    assert(is_ascii_chars(cs)) by {
        assert forall|i: int| 0 <= i < cs.len() implies '\0' <= #[trigger] cs[i] <= '\u{7f}' by {
            assert(cs[i] == t[i] as char);
        }
    }
    is_ascii_chars_encode_utf8(cs);
    assert(encode_utf8(cs) =~= t) by {
        assert forall|i: int| 0 <= i < cs.len() implies encode_utf8(cs)[i] == t[i] by {
            assert(cs[i] as u8 == encode_utf8(cs)[i]);
            assert(cs[i] == t[i] as char);
        }
    }
    encode_utf8_decode_utf8(cs);
    encode_utf8_decode_utf8(s@);
    lemma_hex_roundtrip(b);
}

/// The bytes written in hexadecimal in the white-space separated tokens of `hex`, as many
/// as fit; tokens that do not read as a byte are skipped.
pub fn hex_to_bytes<const N: usize>(hex: &str) -> (r: HeaplessVec<u8, N>)
    ensures
        r@ == truncated(hex_values(hex@), HeaplessVec::<u8, N>::limit()),
{
    let mut result = HeaplessVec::<u8, N>::const_new();
    let ghost mut vals: Seq<u8> = Seq::empty();
    let ghost mut cur: Seq<char> = Seq::empty();
    let mut in_token = false;
    let mut has_digits = false;
    let mut valid = true;
    let mut over = false;
    let mut value: u32 = 0;
    for c in it: hex.chars()
        invariant
            it.seq() == hex@,
            (vals, cur) == hex_scan(hex@.take(it.index() as int)),
            result@ == truncated(vals, HeaplessVec::<u8, N>::limit()),
            in_token == (cur.len() > 0),
            has_digits == (token_digits(cur).len() > 0),
            valid == all_hex(token_digits(cur)),
            valid && !over ==> value as int == digits_value(token_digits(cur)) && value <= 255,
            valid && over ==> digits_value(token_digits(cur)) > 255,
    {
        let ghost k = it.index();
        proof {
            assert(hex@.take(k + 1) =~= hex@.take(k as int).push(c));
            lemma_token_digits_push(cur, c);
        }
        if is_white_char(c) {
            if in_token && valid && has_digits && !over {
                let byte = value as u8;
                proof {
                    lemma_truncated_push(vals, byte, HeaplessVec::<u8, N>::limit());
                }
                let _ = result.push(byte);
            }
            proof {
                vals = flush_token(vals, cur);
                cur = Seq::empty();
            }
            in_token = false;
            has_digits = false;
            valid = true;
            over = false;
            value = 0;
            proof {
                assert(token_digits(cur) =~= Seq::<char>::empty());
                assert(hex@.take(k + 1).drop_last() =~= hex@.take(k as int));
            }
        } else {
            if in_token || c != '+' {
                let hv = hex_value_of(c);
                if hv == 255 {
                    valid = false;
                } else if valid && !over {
                    value = value * 16 + hv as u32;
                    if value > 255 {
                        over = true;
                    }
                }
                has_digits = true;
            }
            proof {
                cur = cur.push(c);
                assert(hex@.take(k + 1).drop_last() =~= hex@.take(k as int));
            }
            in_token = true;
        }
    }
    if in_token && valid && has_digits && !over {
        let byte = value as u8;
        proof {
            lemma_truncated_push(vals, byte, HeaplessVec::<u8, N>::limit());
        }
        let _ = result.push(byte);
    }
    assert(hex@.take(hex@.len() as int) =~= hex@);
    result
}

proof fn lemma_token_digits_push(cur: Seq<char>, c: char)
    ensures
        cur.len() > 0 || c != '+' ==> token_digits(cur.push(c)) == token_digits(cur).push(c),
        cur.len() == 0 && c == '+' ==> token_digits(cur.push(c)) == Seq::<char>::empty(),
        forall|d: Seq<char>| #![trigger d.push(c)] digits_value(d.push(c)) == digits_value(d) * 16 + hex_value(c),
        forall|d: Seq<char>| #![trigger d.push(c)] all_hex(d.push(c)) == (all_hex(d) && hex_value(c) >= 0),
{
    if cur.len() > 0 && cur[0] == '+' {
        assert(cur.push(c).drop_first() =~= cur.drop_first().push(c));
    }
    if cur.len() == 0 && c == '+' {
        assert(cur.push(c).drop_first() =~= Seq::<char>::empty());
    }
    assert forall|d: Seq<char>| #![trigger d.push(c)] digits_value(d.push(c)) == digits_value(d) * 16 + hex_value(c) by {
        assert(d.push(c).drop_last() =~= d);
    }
    assert forall|d: Seq<char>| #![trigger d.push(c)] all_hex(d.push(c)) == (all_hex(d) && hex_value(c) >= 0) by {
        if all_hex(d) && hex_value(c) >= 0 {
            assert forall|i: int| 0 <= i < d.push(c).len() implies hex_value(#[trigger] d.push(c)[i]) >= 0 by {
                if i < d.len() {
                    assert(d.push(c)[i] == d[i]);
                }
            }
        }
        if all_hex(d.push(c)) {
            assert(hex_value(d.push(c)[d.len() as int]) >= 0);
            assert forall|i: int| 0 <= i < d.len() implies hex_value(#[trigger] d[i]) >= 0 by {
                assert(d.push(c)[i] == d[i]);
            }
        }
    }
}

} // verus!
