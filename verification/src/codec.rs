//! Canonical byte encoding primitives: big-endian integers and
//! length-prefixed ASCII strings.
//!
//! Every block, header and claim is hashed and shipped in this canonical
//! form, so the encoders and decoders here are verified to invert each
//! other exactly.

use vstd::prelude::*;
use vstd::string::StrSliceExecFns;

verus! {

/// The four big-endian bytes of a 32-bit value, most significant first.
pub open spec fn u32_be(x: u32) -> Seq<u8> {
    seq![
        ((x >> 24) & 0xff) as u8,
        ((x >> 16) & 0xff) as u8,
        ((x >> 8) & 0xff) as u8,
        (x & 0xff) as u8,
    ]
}

/// The eight big-endian bytes of a 64-bit value, most significant first.
pub open spec fn u64_be(x: u64) -> Seq<u8> {
    seq![
        ((x >> 56) & 0xff) as u8,
        ((x >> 48) & 0xff) as u8,
        ((x >> 40) & 0xff) as u8,
        ((x >> 32) & 0xff) as u8,
        ((x >> 24) & 0xff) as u8,
        ((x >> 16) & 0xff) as u8,
        ((x >> 8) & 0xff) as u8,
        (x & 0xff) as u8,
    ]
}

/// The sixteen big-endian bytes of a 128-bit value, most significant first.
pub open spec fn u128_be(x: u128) -> Seq<u8> {
    seq![
        ((x >> 120) & 0xff) as u8,
        ((x >> 112) & 0xff) as u8,
        ((x >> 104) & 0xff) as u8,
        ((x >> 96) & 0xff) as u8,
        ((x >> 88) & 0xff) as u8,
        ((x >> 80) & 0xff) as u8,
        ((x >> 72) & 0xff) as u8,
        ((x >> 64) & 0xff) as u8,
        ((x >> 56) & 0xff) as u8,
        ((x >> 48) & 0xff) as u8,
        ((x >> 40) & 0xff) as u8,
        ((x >> 32) & 0xff) as u8,
        ((x >> 24) & 0xff) as u8,
        ((x >> 16) & 0xff) as u8,
        ((x >> 8) & 0xff) as u8,
        (x & 0xff) as u8,
    ]
}

/// The 64-bit value read back from eight big-endian bytes.
pub open spec fn be_val64(s: Seq<u8>) -> u64
    recommends
        s.len() == 8,
{
    (((s[0] as u64) << 56) | ((s[1] as u64) << 48) | ((s[2] as u64) << 40) | ((s[3] as u64) << 32)
        | ((s[4] as u64) << 24) | ((s[5] as u64) << 16) | ((s[6] as u64) << 8) | (s[7] as u64))
}

/// The 128-bit value read back from sixteen big-endian bytes.
pub open spec fn be_val128(s: Seq<u8>) -> u128
    recommends
        s.len() == 16,
{
    (((s[0] as u128) << 120) | ((s[1] as u128) << 112) | ((s[2] as u128) << 104) | ((
    s[3] as u128) << 96) | ((s[4] as u128) << 88) | ((s[5] as u128) << 80) | ((s[6] as u128) << 72)
        | ((s[7] as u128) << 64) | ((s[8] as u128) << 56) | ((s[9] as u128) << 48) | ((
    s[10] as u128) << 40) | ((s[11] as u128) << 32) | ((s[12] as u128) << 24) | ((
    s[13] as u128) << 16) | ((s[14] as u128) << 8) | (s[15] as u128))
}

/// The 32-bit value read back from four big-endian bytes.
pub open spec fn be_val32(s: Seq<u8>) -> u32
    recommends
        s.len() == 4,
{
    (((s[0] as u32) << 24) | ((s[1] as u32) << 16) | ((s[2] as u32) << 8) | (s[3] as u32))
}

/// Reading back the big-endian bytes of a 64-bit value recovers the value.
pub proof fn lemma_u64_be_roundtrip(x: u64)
    ensures
        be_val64(u64_be(x)) == x,
{
    assert((((((x >> 56) & 0xff) as u8) as u64) << 56) | (((((x >> 48) & 0xff) as u8) as u64) << 48)
        | (((((x >> 40) & 0xff) as u8) as u64) << 40) | (((((x >> 32) & 0xff) as u8) as u64) << 32)
        | (((((x >> 24) & 0xff) as u8) as u64) << 24) | (((((x >> 16) & 0xff) as u8) as u64) << 16)
        | (((((x >> 8) & 0xff) as u8) as u64) << 8) | (((x & 0xff) as u8) as u64) == x)
        by (bit_vector);
}

/// Reading back the big-endian bytes of a 128-bit value recovers the value.
pub proof fn lemma_u128_be_roundtrip(x: u128)
    ensures
        be_val128(u128_be(x)) == x,
{
    assert((((((x >> 120) & 0xff) as u8) as u128) << 120) | (((((x >> 112) & 0xff) as u8) as u128)
        << 112) | (((((x >> 104) & 0xff) as u8) as u128) << 104) | (((((x >> 96) & 0xff) as u8)
        as u128) << 96) | (((((x >> 88) & 0xff) as u8) as u128) << 88) | (((((x >> 80) & 0xff)
        as u8) as u128) << 80) | (((((x >> 72) & 0xff) as u8) as u128) << 72) | (((((x >> 64)
        & 0xff) as u8) as u128) << 64) | (((((x >> 56) & 0xff) as u8) as u128) << 56) | (((((x
        >> 48) & 0xff) as u8) as u128) << 48) | (((((x >> 40) & 0xff) as u8) as u128) << 40) | ((((
    (x >> 32) & 0xff) as u8) as u128) << 32) | (((((x >> 24) & 0xff) as u8) as u128) << 24) | ((((
    (x >> 16) & 0xff) as u8) as u128) << 16) | (((((x >> 8) & 0xff) as u8) as u128) << 8) | (((x
        & 0xff) as u8) as u128) == x) by (bit_vector);
}

/// Reading back the big-endian bytes of a 32-bit value recovers the value.
pub proof fn lemma_u32_be_roundtrip(x: u32)
    ensures
        be_val32(u32_be(x)) == x,
{
    assert((((((x >> 24) & 0xff) as u8) as u32) << 24) | (((((x >> 16) & 0xff) as u8) as u32) << 16)
        | (((((x >> 8) & 0xff) as u8) as u32) << 8) | (((x & 0xff) as u8) as u32) == x)
        by (bit_vector);
}

/// Appends the eight big-endian bytes of `x` to `out`.
pub fn push_u64_be(out: &mut Vec<u8>, x: u64)
    ensures
        final(out)@ == old(out)@ + u64_be(x),
{
    out.push(((x >> 56) & 0xff) as u8);
    out.push(((x >> 48) & 0xff) as u8);
    out.push(((x >> 40) & 0xff) as u8);
    out.push(((x >> 32) & 0xff) as u8);
    out.push(((x >> 24) & 0xff) as u8);
    out.push(((x >> 16) & 0xff) as u8);
    out.push(((x >> 8) & 0xff) as u8);
    out.push((x & 0xff) as u8);
    proof {
        assert(out@ =~= old(out)@ + u64_be(x));
    }
}

/// Appends the sixteen big-endian bytes of `x` to `out`.
pub fn push_u128_be(out: &mut Vec<u8>, x: u128)
    ensures
        final(out)@ == old(out)@ + u128_be(x),
{
    out.push(((x >> 120) & 0xff) as u8);
    out.push(((x >> 112) & 0xff) as u8);
    out.push(((x >> 104) & 0xff) as u8);
    out.push(((x >> 96) & 0xff) as u8);
    out.push(((x >> 88) & 0xff) as u8);
    out.push(((x >> 80) & 0xff) as u8);
    out.push(((x >> 72) & 0xff) as u8);
    out.push(((x >> 64) & 0xff) as u8);
    out.push(((x >> 56) & 0xff) as u8);
    out.push(((x >> 48) & 0xff) as u8);
    out.push(((x >> 40) & 0xff) as u8);
    out.push(((x >> 32) & 0xff) as u8);
    out.push(((x >> 24) & 0xff) as u8);
    out.push(((x >> 16) & 0xff) as u8);
    out.push(((x >> 8) & 0xff) as u8);
    out.push((x & 0xff) as u8);
    proof {
        assert(out@ =~= old(out)@ + u128_be(x));
    }
}

/// Appends the four big-endian bytes of `x` to `out`.
pub fn push_u32_be(out: &mut Vec<u8>, x: u32)
    ensures
        final(out)@ == old(out)@ + u32_be(x),
{
    out.push(((x >> 24) & 0xff) as u8);
    out.push(((x >> 16) & 0xff) as u8);
    out.push(((x >> 8) & 0xff) as u8);
    out.push((x & 0xff) as u8);
    proof {
        assert(out@ =~= old(out)@ + u32_be(x));
    }
}

/// Reads the 64-bit big-endian value stored at `pos`.
pub fn read_u64_be(buf: &Vec<u8>, pos: usize) -> (r: u64)
    requires
        pos + 8 <= buf@.len(),
    ensures
        r == be_val64(buf@.subrange(pos as int, pos as int + 8)),
{
    let n = buf.len();
    let r = ((buf[pos] as u64) << 56) | ((buf[pos + 1] as u64) << 48) | ((buf[pos + 2] as u64)
        << 40) | ((buf[pos + 3] as u64) << 32) | ((buf[pos + 4] as u64) << 24) | ((buf[pos
        + 5] as u64) << 16) | ((buf[pos + 6] as u64) << 8) | (buf[pos + 7] as u64);
    proof {
        let s = buf@.subrange(pos as int, pos as int + 8);
        assert(s[0] == buf@[pos as int]);
        assert(s[7] == buf@[pos as int + 7]);
    }
    r
}

/// Reads the 128-bit big-endian value stored at `pos`.
pub fn read_u128_be(buf: &Vec<u8>, pos: usize) -> (r: u128)
    requires
        pos + 16 <= buf@.len(),
    ensures
        r == be_val128(buf@.subrange(pos as int, pos as int + 16)),
{
    let n = buf.len();
    let r = ((buf[pos] as u128) << 120) | ((buf[pos + 1] as u128) << 112) | ((buf[pos + 2] as u128)
        << 104) | ((buf[pos + 3] as u128) << 96) | ((buf[pos + 4] as u128) << 88) | ((buf[pos
        + 5] as u128) << 80) | ((buf[pos + 6] as u128) << 72) | ((buf[pos + 7] as u128) << 64) | ((
    buf[pos + 8] as u128) << 56) | ((buf[pos + 9] as u128) << 48) | ((buf[pos + 10] as u128) << 40)
        | ((buf[pos + 11] as u128) << 32) | ((buf[pos + 12] as u128) << 24) | ((buf[pos
        + 13] as u128) << 16) | ((buf[pos + 14] as u128) << 8) | (buf[pos + 15] as u128);
    proof {
        let s = buf@.subrange(pos as int, pos as int + 16);
        assert(s[0] == buf@[pos as int]);
        assert(s[15] == buf@[pos as int + 15]);
    }
    r
}

/// Whether every character of `s` is ASCII.
pub open spec fn ascii_chars(s: Seq<char>) -> bool {
    forall|i: int| 0 <= i < s.len() ==> ((#[trigger] s[i]) as u32) < 128
}

/// The bytes of an ASCII character sequence, one byte per character.
pub open spec fn ascii_bytes(s: Seq<char>) -> Seq<u8> {
    s.map(|_i: int, c: char| c as u8)
}

/// The canonical encoding of an ASCII string: its length as eight
/// big-endian bytes, then one byte per character.
pub open spec fn enc_str(s: Seq<char>) -> Seq<u8> {
    u64_be(s.len() as u64) + ascii_bytes(s)
}

/// The wire form of an event message: its payload length as four
/// big-endian bytes, then the payload.
pub open spec fn framed(payload: Seq<u8>) -> Seq<u8> {
    u32_be(payload.len() as u32) + payload
}

/// Frames a message payload for the wire: a 32-bit length, then the
/// payload bytes.
pub fn frame_message(payload: &Vec<u8>) -> (r: Vec<u8>)
    requires
        payload@.len() <= u32::MAX,
    ensures
        r@ == framed(payload@),
{
    let mut out: Vec<u8> = Vec::new();
    push_u32_be(&mut out, payload.len() as u32);
    let n = payload.len();
    let mut i: usize = 0;
    while i < n
        invariant
            n == payload@.len(),
            i <= n,
            out@ == u32_be(n as u32) + payload@.subrange(0, i as int),
        decreases n - i,
    {
        out.push(payload[i]);
        proof {
            assert(u32_be(n as u32) + payload@.subrange(0, i as int + 1) =~= (u32_be(n as u32)
                + payload@.subrange(0, i as int)).push(payload@[i as int]));
        }
        i = i + 1;
    }
    proof {
        assert(payload@.subrange(0, n as int) =~= payload@);
        assert(out@ =~= framed(payload@));
    }
    out
}

/// Unframes a wire message: reads the 32-bit length and returns exactly
/// that many payload bytes, or `None` when the buffer disagrees with its
/// own length field.
pub fn unframe_message(buf: &Vec<u8>) -> (r: Option<Vec<u8>>)
    ensures
        r matches Some(p) ==> buf@ == framed(p@),
        forall|payload: Seq<u8>|
            (payload.len() <= u32::MAX && buf@ == framed(payload)) ==> (r matches Some(p) && p@
                == payload),
{
    let n = buf.len();
    if n < 4 {
        return None;
    }
    let len32 = ((buf[0] as u32) << 24) | ((buf[1] as u32) << 16) | ((buf[2] as u32) << 8) | (
    buf[3] as u32);
    proof {
        assert(len32 == be_val32(buf@.subrange(0, 4))) by {
            let s = buf@.subrange(0, 4);
            assert(s[0] == buf@[0] && s[1] == buf@[1] && s[2] == buf@[2] && s[3] == buf@[3]);
        }
    }
    if len32 as usize != n - 4 {
        proof {
            assert forall|payload: Seq<u8>|
                !(payload.len() <= u32::MAX && buf@ == framed(payload)) by {
                if payload.len() <= u32::MAX && buf@ == framed(payload) {
                    assert(buf@.subrange(0, 4) =~= u32_be(payload.len() as u32));
                    lemma_u32_be_roundtrip(payload.len() as u32);
                }
            }
        }
        return None;
    }
    let mut out: Vec<u8> = Vec::new();
    let mut i: usize = 0;
    let m = n - 4;
    while i < m
        invariant
            n == buf@.len(),
            m == n - 4,
            i <= m,
            out@ == buf@.subrange(4, 4 + i as int),
        decreases m - i,
    {
        out.push(buf[4 + i]);
        proof {
            assert(buf@.subrange(4, 4 + i as int + 1) =~= buf@.subrange(4, 4 + i as int).push(
                buf@[4 + i as int],
            ));
        }
        i = i + 1;
    }
    proof {
        lemma_be_bytes_inverse32(buf@.subrange(0, 4));
        assert(buf@ =~= buf@.subrange(0, 4) + buf@.subrange(4, n as int));
        assert(buf@ =~= framed(out@));
        assert forall|payload: Seq<u8>|
            (payload.len() <= u32::MAX && buf@ == framed(payload)) implies out@ == payload by {
            assert(buf@.subrange(4, n as int) =~= payload);
        }
    }
    Some(out)
}

/// Four bytes are exactly the big-endian encoding of the value read
/// back from them.
pub proof fn lemma_be_bytes_inverse32(s: Seq<u8>)
    requires
        s.len() == 4,
    ensures
        u32_be(be_val32(s)) == s,
{
    let b0 = s[0];
    let b1 = s[1];
    let b2 = s[2];
    let b3 = s[3];
    let x = be_val32(s);
    assert({
        let x = ((b0 as u32) << 24) | ((b1 as u32) << 16) | ((b2 as u32) << 8) | (b3 as u32);
        (((x >> 24) & 0xff) as u8) == b0 && (((x >> 16) & 0xff) as u8) == b1 && (((x >> 8) & 0xff)
            as u8) == b2 && ((x & 0xff) as u8) == b3
    }) by (bit_vector);
    assert(u32_be(x) =~= s);
}

/// Decides whether two byte vectors hold the same bytes.
pub fn bytes_eq(a: &Vec<u8>, b: &Vec<u8>) -> (r: bool)
    ensures
        r == (a@ == b@),
{
    let alen = a.len();
    if alen != b.len() {
        return false;
    }
    let mut i: usize = 0;
    while i < alen
        invariant
            alen == a@.len(),
            alen == b@.len(),
            i <= alen,
            forall|j: int| 0 <= j < i ==> a@[j] == b@[j],
        decreases alen - i,
    {
        if a[i] != b[i] {
            return false;
        }
        i = i + 1;
    }
    proof {
        assert(a@ =~= b@);
    }
    true
}

/// Decides whether every character of a string slice is ASCII.
pub fn check_ascii(s: &str) -> (r: bool)
    ensures
        r == ascii_chars(s@),
{
    let len = s.unicode_len();
    let mut i: usize = 0;
    while i < len
        invariant
            len == s@.len(),
            i <= len,
            forall|j: int| 0 <= j < i ==> ((#[trigger] s@[j]) as u32) < 128,
        decreases len - i,
    {
        let c = s.get_char(i);
        if c as u32 >= 128 {
            assert(!ascii_chars(s@));
            return false;
        }
        i = i + 1;
    }
    true
}

/// Copies the bytes of an ASCII string slice into an owned byte vector.
pub fn ascii_str_to_bytes(s: &str) -> (r: Vec<u8>)
    requires
        ascii_chars(s@),
    ensures
        r@ == ascii_bytes(s@),
{
    let len = s.unicode_len();
    let mut out: Vec<u8> = Vec::new();
    let mut i: usize = 0;
    while i < len
        invariant
            len == s@.len(),
            i <= len,
            ascii_chars(s@),
            out@ == ascii_bytes(s@.subrange(0, i as int)),
        decreases len - i,
    {
        let c = s.get_char(i);
        out.push(c as u8);
        proof {
            assert(ascii_bytes(s@.subrange(0, i as int + 1)) =~= ascii_bytes(
                s@.subrange(0, i as int),
            ).push(s@[i as int] as u8));
        }
        i = i + 1;
    }
    proof {
        assert(s@.subrange(0, len as int) =~= s@);
    }
    out
}

/// Relies on `String::from_utf8`: ASCII bytes are valid UTF-8 and decode
/// to one character per byte.
#[verifier::external_body]
pub fn ascii_bytes_to_string(bytes: Vec<u8>) -> (r: String)
    requires
        forall|i: int| 0 <= i < bytes@.len() ==> (#[trigger] bytes@[i]) < 128,
    ensures
        r@ == bytes@.map(|_i: int, b: u8| b as char),
{
    match String::from_utf8(bytes) {
        Ok(s) => s,
        Err(_) => String::new(),
    }
}

/// Appends the canonical encoding of an ASCII string to `out`.
pub fn push_str(out: &mut Vec<u8>, s: &String)
    requires
        ascii_chars(s@),
    ensures
        final(out)@ == old(out)@ + enc_str(s@),
{
    let len = s.as_str().unicode_len();
    push_u64_be(out, len as u64);
    let mut bytes = ascii_str_to_bytes(s.as_str());
    let ghost mid = out@;
    let mut i: usize = 0;
    let blen = bytes.len();
    while i < blen
        invariant
            blen == bytes@.len(),
            i <= blen,
            out@ == mid + bytes@.subrange(0, i as int),
        decreases blen - i,
    {
        let b = bytes[i];
        out.push(b);
        proof {
            assert(mid + bytes@.subrange(0, i as int + 1) =~= (mid + bytes@.subrange(
                0,
                i as int,
            )).push(bytes@[i as int]));
        }
        i = i + 1;
    }
    proof {
        assert(bytes@.subrange(0, blen as int) =~= bytes@);
        assert(out@ =~= old(out)@ + enc_str(s@));
    }
}

/// When the suffix of `buf` at `p` splits as `a + b`, the suffix just
/// past `a` is exactly `b`.
pub proof fn lemma_concat_tail(buf: Seq<u8>, p: int, a: Seq<u8>, b: Seq<u8>)
    requires
        0 <= p <= buf.len(),
        buf.subrange(p, buf.len() as int) == a + b,
    ensures
        p + a.len() + b.len() == buf.len(),
        buf.subrange(p + a.len(), buf.len() as int) == b,
{
    let n = buf.len() as int;
    assert(buf.subrange(p, n).len() == (a + b).len());
    assert forall|q: int| 0 <= q < n - (p + a.len()) implies buf.subrange(p + a.len(), n)[q]
        == b[q] by {
        assert(buf.subrange(p, n)[a.len() + q] == (a + b)[a.len() + q]);
        assert((a + b)[a.len() + q] == b[q]);
        assert(buf.subrange(p, n)[a.len() + q] == buf[p + a.len() + q]);
        assert(buf.subrange(p + a.len(), n)[q] == buf[p + a.len() + q]);
    }
    assert(buf.subrange(p + a.len(), n) =~= b);
}

/// An encoded ASCII string stands at `pos`: the eight-byte length and
/// the ASCII bytes of `s`, followed by anything.
pub open spec fn str_at(buf: Seq<u8>, pos: int, s: Seq<char>) -> bool {
    &&& ascii_chars(s)
    &&& s.len() < 0x10000000000000000
    &&& pos + 8 + s.len() <= buf.len()
    &&& buf.subrange(pos, buf.len() as int) == enc_str(s) + buf.subrange(
        pos + 8 + s.len(),
        buf.len() as int,
    )
}

/// An ASCII character's byte is its code point.
pub proof fn lemma_ascii_char_byte(c: char)
    requires
        (c as u32) < 128,
    ensures
        ((c as u8) as u32) == (c as u32),
        (c as u8) < 128,
{
}

/// ASCII character sequences with equal bytes are equal.
pub proof fn lemma_ascii_bytes_injective(s1: Seq<char>, s2: Seq<char>)
    requires
        ascii_chars(s1),
        ascii_chars(s2),
        ascii_bytes(s1) == ascii_bytes(s2),
    ensures
        s1 == s2,
{
    assert(ascii_bytes(s1).len() == s1.len());
    assert(ascii_bytes(s2).len() == s2.len());
    assert(s1.len() == s2.len());
    assert forall|i: int| 0 <= i < s1.len() implies s1[i] == s2[i] by {
        let c1 = s1[i];
        let c2 = s2[i];
        lemma_ascii_char_byte(c1);
        lemma_ascii_char_byte(c2);
        assert(ascii_bytes(s1)[i] == (c1 as u8));
        assert(ascii_bytes(s2)[i] == (c2 as u8));
        assert(ascii_bytes(s1)[i] == ascii_bytes(s2)[i]);
        assert((c1 as u8) == (c2 as u8));
        assert((c1 as u32) < 128 && (c2 as u32) < 128);
        assert(((c1 as u8) as u32) == (c1 as u32));
        assert(((c2 as u8) as u32) == (c2 as u32));
        assert((c1 as u32) == (c2 as u32));
        vstd::utf8::char_u32_cast(c1, c1 as u32);
        vstd::utf8::char_u32_cast(c2, c2 as u32);
        assert(c1 == c2);
    }
    assert(s1 =~= s2);
}

/// Reads back a canonical ASCII string stored at `pos`. Returns the
/// string and the position just past it, or `None` when the buffer is
/// truncated or a byte is not ASCII. Whenever an encoded ASCII string
/// stands at `pos`, exactly that string is read back.
pub fn read_str(buf: &Vec<u8>, pos: usize) -> (r: Option<(String, usize)>)
    requires
        pos <= buf@.len(),
    ensures
        r matches Some(p) ==> {
            &&& pos + 8 <= p.1 <= buf@.len()
            &&& ascii_chars(p.0@)
            &&& buf@.subrange(pos as int, p.1 as int) == enc_str(p.0@)
        },
        forall|s: Seq<char>|
            str_at(buf@, pos as int, s) ==> (r matches Some(p) && p.0@ == s && p.1 as int == pos
                + 8 + s.len()),
{
    if buf.len() - pos < 8 {
        proof {
            assert forall|s: Seq<char>| !str_at(buf@, pos as int, s) by {}
        }
        return None;
    }
    let len64 = read_u64_be(buf, pos);
    proof {
        lemma_str_at_len(buf@, pos as int, len64);
    }
    if len64 > (buf.len() - pos - 8) as u64 {
        proof {
            assert forall|s: Seq<char>| !str_at(buf@, pos as int, s) by {
                if str_at(buf@, pos as int, s) {
                    assert(s.len() == len64);
                }
            }
        }
        return None;
    }
    let len = len64 as usize;
    let start = pos + 8;
    let n = buf.len();
    let mut bytes: Vec<u8> = Vec::new();
    let mut i: usize = 0;
    while i < len
        invariant
            n == buf@.len(),
            pos + 8 == start,
            len == len64,
            len64 == be_val64(buf@.subrange(pos as int, pos as int + 8)),
            forall|s: Seq<char>| str_at(buf@, pos as int, s) ==> s.len() == len64,
            start + len <= n,
            i <= len,
            bytes@ == buf@.subrange(start as int, start as int + i as int),
            forall|j: int| 0 <= j < bytes@.len() ==> (#[trigger] bytes@[j]) < 128,
        decreases len - i,
    {
        let b = buf[start + i];
        if b >= 128 {
            proof {
                assert forall|s: Seq<char>| !str_at(buf@, pos as int, s) by {
                    if str_at(buf@, pos as int, s) {
                        assert(s.len() == len64);
                        let suffix = buf@.subrange(pos as int, n as int);
                        assert(suffix[8 + i] == (enc_str(s) + buf@.subrange(
                            pos as int + 8 + s.len(),
                            n as int,
                        ))[8 + i]);
                        assert(suffix[8 + i] == ascii_bytes(s)[i as int]);
                        let c = s[i as int];
                        lemma_ascii_char_byte(c);
                        assert(ascii_bytes(s)[i as int] == (c as u8));
                        assert((c as u32) < 128);
                        assert(((c as u8) as u32) == (c as u32));
                        assert((c as u8) < 128);
                        assert(suffix[8 + i] == buf@[pos as int + 8 + i]);
                        assert(buf@[pos as int + 8 + i] < 128);
                    }
                }
            }
            return None;
        }
        bytes.push(b);
        proof {
            assert(buf@.subrange(start as int, start as int + i as int + 1) =~= buf@.subrange(
                start as int,
                start as int + i as int,
            ).push(buf@[start as int + i as int]));
        }
        i = i + 1;
    }
    let ghost bseq = bytes@;
    let s = ascii_bytes_to_string(bytes);
    let end = start + len;
    proof {
        lemma_u64_be_roundtrip(len64);
        assert(ascii_bytes(s@) =~= bseq);
        assert(s@.len() == len64);
        assert(u64_be(s@.len() as u64) == u64_be(len64));
        assert(buf@.subrange(pos as int, pos as int + 8) =~= u64_be(len64)) by {
            lemma_be_bytes_inverse(buf@.subrange(pos as int, pos as int + 8));
        }
        assert(buf@.subrange(pos as int, end as int) =~= buf@.subrange(pos as int, pos as int + 8)
            + buf@.subrange(start as int, end as int));
        assert(buf@.subrange(pos as int, end as int) =~= enc_str(s@));
        assert forall|t: Seq<char>| str_at(buf@, pos as int, t) implies s@ == t by {
            assert(t.len() == len64);
            let suffix = buf@.subrange(pos as int, n as int);
            assert forall|q: int| 0 <= q < t.len() implies ascii_bytes(t)[q] == bseq[q] by {
                assert(suffix[8 + q] == (enc_str(t) + buf@.subrange(
                    pos as int + 8 + t.len(),
                    n as int,
                ))[8 + q]);
                assert(suffix[8 + q] == ascii_bytes(t)[q]);
                assert(suffix[8 + q] == buf@[pos as int + 8 + q]);
                assert(bseq[q] == buf@[start as int + q]);
            }
            assert(ascii_bytes(t) =~= bseq);
            lemma_ascii_bytes_injective(s@, t);
        }
    }
    Some((s, end))
}

/// When an encoded string stands at `pos`, the eight bytes there spell
/// its length.
proof fn lemma_str_at_len(buf: Seq<u8>, pos: int, len64: u64)
    requires
        0 <= pos,
        pos + 8 <= buf.len(),
        len64 == be_val64(buf.subrange(pos, pos + 8)),
    ensures
        forall|s: Seq<char>| str_at(buf, pos, s) ==> s.len() == len64,
{
    assert forall|s: Seq<char>| str_at(buf, pos, s) implies s.len() == len64 by {
        let suffix = buf.subrange(pos, buf.len() as int);
        assert forall|q: int| 0 <= q < 8 implies (#[trigger] buf.subrange(pos, pos + 8)[q])
            == u64_be(s.len() as u64)[q] by {
            assert(suffix[q] == (enc_str(s) + buf.subrange(pos + 8 + s.len(), buf.len() as int))[
            q]);
            assert(suffix[q] == u64_be(s.len() as u64)[q]);
            assert(buf.subrange(pos, pos + 8)[q] == buf[pos + q]);
            assert(suffix[q] == buf[pos + q]);
        }
        assert(buf.subrange(pos, pos + 8) =~= u64_be(s.len() as u64));
        lemma_u64_be_roundtrip(s.len() as u64);
    }
}

/// Eight bytes are exactly the big-endian encoding of the value read
/// back from them.
pub proof fn lemma_be_bytes_inverse(s: Seq<u8>)
    requires
        s.len() == 8,
    ensures
        u64_be(be_val64(s)) == s,
{
    let b0 = s[0];
    let b1 = s[1];
    let b2 = s[2];
    let b3 = s[3];
    let b4 = s[4];
    let b5 = s[5];
    let b6 = s[6];
    let b7 = s[7];
    let x = be_val64(s);
    assert({
        let x = ((b0 as u64) << 56) | ((b1 as u64) << 48) | ((b2 as u64) << 40) | ((b3 as u64)
            << 32) | ((b4 as u64) << 24) | ((b5 as u64) << 16) | ((b6 as u64) << 8) | (b7 as u64);
        (((x >> 56) & 0xff) as u8) == b0 && (((x >> 48) & 0xff) as u8) == b1 && (((x >> 40) & 0xff)
            as u8) == b2 && (((x >> 32) & 0xff) as u8) == b3 && (((x >> 24) & 0xff) as u8) == b4 && ((
        (x >> 16) & 0xff) as u8) == b5 && (((x >> 8) & 0xff) as u8) == b6 && ((x & 0xff) as u8)
            == b7
    }) by (bit_vector);
    assert(u64_be(x) =~= s);
}

/// The sixteen bytes of a 128-bit value are exactly the big-endian
/// encoding of the value read back from them.
pub proof fn lemma_be_bytes_inverse128(s: Seq<u8>)
    requires
        s.len() == 16,
    ensures
        u128_be(be_val128(s)) == s,
{
    let b0 = s[0];
    let b1 = s[1];
    let b2 = s[2];
    let b3 = s[3];
    let b4 = s[4];
    let b5 = s[5];
    let b6 = s[6];
    let b7 = s[7];
    let b8 = s[8];
    let b9 = s[9];
    let b10 = s[10];
    let b11 = s[11];
    let b12 = s[12];
    let b13 = s[13];
    let b14 = s[14];
    let b15 = s[15];
    let x = be_val128(s);
    assert({
        let x = ((b0 as u128) << 120) | ((b1 as u128) << 112) | ((b2 as u128) << 104) | ((
        b3 as u128) << 96) | ((b4 as u128) << 88) | ((b5 as u128) << 80) | ((b6 as u128) << 72) | ((
        b7 as u128) << 64) | ((b8 as u128) << 56) | ((b9 as u128) << 48) | ((b10 as u128) << 40)
            | ((b11 as u128) << 32) | ((b12 as u128) << 24) | ((b13 as u128) << 16) | ((b14 as u128)
            << 8) | (b15 as u128);
        (((x >> 120) & 0xff) as u8) == b0 && (((x >> 112) & 0xff) as u8) == b1 && (((x >> 104)
            & 0xff) as u8) == b2 && (((x >> 96) & 0xff) as u8) == b3 && (((x >> 88) & 0xff) as u8)
            == b4 && (((x >> 80) & 0xff) as u8) == b5 && (((x >> 72) & 0xff) as u8) == b6 && (((x
            >> 64) & 0xff) as u8) == b7 && (((x >> 56) & 0xff) as u8) == b8 && (((x >> 48) & 0xff)
            as u8) == b9 && (((x >> 40) & 0xff) as u8) == b10 && (((x >> 32) & 0xff) as u8) == b11
            && (((x >> 24) & 0xff) as u8) == b12 && (((x >> 16) & 0xff) as u8) == b13 && (((x >> 8)
            & 0xff) as u8) == b14 && ((x & 0xff) as u8) == b15
    }) by (bit_vector);
    assert(u128_be(x) =~= s);
}

} // verus!
