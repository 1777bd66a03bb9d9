//! Byte-level building blocks shared by the binary encoders and decoders:
//! little-endian integers, byte appends and UTF-8 text.

use vstd::prelude::*;
use vstd::utf8::{decode_utf8, encode_utf8, valid_utf8};

verus! {

/// Little-endian bytes of a 16-bit value.
pub open spec fn le16(x: u16) -> Seq<u8> {
    seq![(x % 256) as u8, (x / 256) as u8]
}

/// Little-endian bytes of a 32-bit value.
pub open spec fn le32(x: u32) -> Seq<u8> {
    seq![
        (x % 256) as u8,
        ((x / 0x100) % 256) as u8,
        ((x / 0x10000) % 256) as u8,
        (x / 0x1000000) as u8,
    ]
}

/// Little-endian bytes of a 64-bit value.
pub open spec fn le64(x: u64) -> Seq<u8> {
    seq![
        (x % 256) as u8,
        ((x / 0x100) % 256) as u8,
        ((x / 0x10000) % 256) as u8,
        ((x / 0x1000000) % 256) as u8,
        ((x / 0x100000000) % 256) as u8,
        ((x / 0x10000000000) % 256) as u8,
        ((x / 0x1000000000000) % 256) as u8,
        (x / 0x100000000000000) as u8,
    ]
}

/// Value of two little-endian bytes.
pub open spec fn from_le16(b0: u8, b1: u8) -> u16 {
    (b0 + 256 * b1) as u16
}

/// Value of four little-endian bytes.
pub open spec fn from_le32(s: Seq<u8>) -> u32 {
    (s[0] + 0x100 * s[1] + 0x10000 * s[2] + 0x1000000 * s[3]) as u32
}

/// Value of eight little-endian bytes.
pub open spec fn from_le64(s: Seq<u8>) -> u64 {
    (s[0] + 0x100 * s[1] + 0x10000 * s[2] + 0x1000000 * s[3] + 0x100000000 * s[4]
        + 0x10000000000 * s[5] + 0x1000000000000 * s[6] + 0x100000000000000 * s[7]) as u64
}

/// Reading back the little-endian bytes of a value gives the value.
pub proof fn lemma_le64_inverse(x: u64)
    ensures
        from_le64(le64(x)) == x,
{
    assert(x == (x % 256) + 0x100 * ((x / 0x100) % 256) + 0x10000 * ((x / 0x10000) % 256) + 0x1000000
        * ((x / 0x1000000) % 256) + 0x100000000 * ((x / 0x100000000) % 256) + 0x10000000000 * ((x
        / 0x10000000000) % 256) + 0x1000000000000 * ((x / 0x1000000000000) % 256) + 0x100000000000000
        * (x / 0x100000000000000)) by (bit_vector);
}

/// Reading back the little-endian bytes of a value gives the value.
pub proof fn lemma_le32_inverse(x: u32)
    ensures
        from_le32(le32(x)) == x,
{
    assert(x == (x % 256) + 0x100 * ((x / 0x100) % 256) + 0x10000 * ((x / 0x10000) % 256) + 0x1000000
        * (x / 0x1000000)) by (bit_vector);
}

/// Reading back the little-endian bytes of a value gives the value.
pub proof fn lemma_le16_inverse(x: u16)
    ensures
        from_le16(le16(x)[0], le16(x)[1]) == x,
{
}

/// Appends `s` to `v`.
pub fn append_bytes(v: &mut Vec<u8>, s: &[u8])
    ensures
        final(v)@ == old(v)@ + s@,
{
    v.extend_from_slice(s);
    assert(v@ =~= old(v)@ + s@);
}

/// Appends the little-endian bytes of `x` to `v`.
pub fn push_le16(v: &mut Vec<u8>, x: u16)
    ensures
        final(v)@ == old(v)@ + le16(x),
{
    let b0: u8 = (x & 0xff) as u8;
    let b1: u8 = (x >> 8) as u8;
    assert(b0 == x % 256 && b1 == x / 256) by (bit_vector)
        requires
            b0 == (x & 0xff) as u8,
            b1 == (x >> 8) as u8,
    ;
    v.push(b0);
    v.push(b1);
    assert(v@ =~= old(v)@ + le16(x));
}

/// Appends the little-endian bytes of `x` to `v`.
pub fn push_le32(v: &mut Vec<u8>, x: u32)
    ensures
        final(v)@ == old(v)@ + le32(x),
{
    let b0: u8 = (x & 0xff) as u8;
    let b1: u8 = ((x >> 8) & 0xff) as u8;
    let b2: u8 = ((x >> 16) & 0xff) as u8;
    let b3: u8 = (x >> 24) as u8;
    assert(b0 == x % 256 && b1 == (x / 0x100) % 256 && b2 == (x / 0x10000) % 256 && b3 == x
        / 0x1000000) by (bit_vector)
        requires
            b0 == (x & 0xff) as u8,
            b1 == ((x >> 8) & 0xff) as u8,
            b2 == ((x >> 16) & 0xff) as u8,
            b3 == (x >> 24) as u8,
    ;
    v.push(b0);
    v.push(b1);
    v.push(b2);
    v.push(b3);
    assert(v@ =~= old(v)@ + le32(x));
}

/// Appends the little-endian bytes of `x` to `v`.
pub fn push_le64(v: &mut Vec<u8>, x: u64)
    ensures
        final(v)@ == old(v)@ + le64(x),
{
    let mut k: u64 = 0;
    let ghost start = v@;
    while k < 8
        invariant
            k <= 8,
            v@.len() == start.len() + k,
            v@.subrange(0, start.len() as int) == start,
            forall|i: int| 0 <= i < k ==> #[trigger] v@[start.len() + i] == le64(x)[i],
        decreases 8 - k,
    {
        let b: u8 = ((x >> (8 * k)) & 0xff) as u8;
        proof {
            lemma_le64_byte(x, k);
        }
        let ghost pre = v@;
        v.push(b);
        proof {
            assert(v@.subrange(0, start.len() as int) =~= pre.subrange(0, start.len() as int));
            assert forall|i: int| 0 <= i < k + 1 implies #[trigger] v@[start.len() + i] == le64(x)[i] by {
                if i < k {
                    assert(v@[start.len() + i] == pre[start.len() + i]);
                }
            }
        }
        k += 1;
    }
    assert forall|i: int| 0 <= i < v@.len() implies v@[i] == (start + le64(x))[i] by {
        if i < start.len() {
            assert(v@[i] == v@.subrange(0, start.len() as int)[i]);
        } else {
            assert(v@[start.len() + (i - start.len())] == le64(x)[i - start.len()]);
        }
    }
    assert(v@ =~= start + le64(x));
}

proof fn lemma_le64_byte(x: u64, k: u64)
    requires
        k < 8,
    ensures
        ((x >> (8 * k)) & 0xff) as u8 == le64(x)[k as int],
{
    let b = ((x >> (8 * k)) & 0xff) as u8;
    if k == 0 {
        assert(((x >> 0u64) & 0xff) as u8 == x % 256) by (bit_vector);
    } else if k == 1 {
        assert(((x >> 8u64) & 0xff) as u8 == (x / 0x100) % 256) by (bit_vector);
    } else if k == 2 {
        assert(((x >> 16u64) & 0xff) as u8 == (x / 0x10000) % 256) by (bit_vector);
    } else if k == 3 {
        assert(((x >> 24u64) & 0xff) as u8 == (x / 0x1000000) % 256) by (bit_vector);
    } else if k == 4 {
        assert(((x >> 32u64) & 0xff) as u8 == (x / 0x100000000) % 256) by (bit_vector);
    } else if k == 5 {
        assert(((x >> 40u64) & 0xff) as u8 == (x / 0x10000000000) % 256) by (bit_vector);
    } else if k == 6 {
        assert(((x >> 48u64) & 0xff) as u8 == (x / 0x1000000000000) % 256) by (bit_vector);
    } else {
        assert(((x >> 56u64) & 0xff) as u8 == x / 0x100000000000000) by (bit_vector);
    }
}

/// Reads two little-endian bytes.
pub fn read_le16(b0: u8, b1: u8) -> (x: u16)
    ensures
        x == from_le16(b0, b1),
        le16(x) == seq![b0, b1],
{
    let x: u16 = (b0 as u16) | ((b1 as u16) << 8);
    assert(x == b0 + 256 * b1 && x % 256 == b0 && x / 256 == b1) by (bit_vector)
        requires
            x == (b0 as u16) | ((b1 as u16) << 8),
    ;
    assert(le16(x) =~= seq![b0, b1]);
    x
}

/// Reads four little-endian bytes starting at `pos`.
pub fn read_le32(bytes: &[u8], pos: usize) -> (x: u32)
    requires
        pos + 4 <= bytes@.len(),
    ensures
        x == from_le32(bytes@.subrange(pos as int, pos + 4)),
        le32(x) == bytes@.subrange(pos as int, pos + 4),
{
    let b0 = bytes[pos];
    let b1 = bytes[pos + 1];
    let b2 = bytes[pos + 2];
    let b3 = bytes[pos + 3];
    let x: u32 = (b0 as u32) | ((b1 as u32) << 8) | ((b2 as u32) << 16) | ((b3 as u32) << 24);
    assert(x == b0 + 0x100 * b1 + 0x10000 * b2 + 0x1000000 * b3 && x % 256 == b0 && (x / 0x100)
        % 256 == b1 && (x / 0x10000) % 256 == b2 && x / 0x1000000 == b3) by (bit_vector)
        requires
            x == (b0 as u32) | ((b1 as u32) << 8) | ((b2 as u32) << 16) | ((b3 as u32) << 24),
    ;
    assert(le32(x) =~= bytes@.subrange(pos as int, pos + 4));
    x
}

/// Reads eight little-endian bytes starting at `pos`.
pub fn read_le64(bytes: &[u8], pos: usize) -> (x: u64)
    requires
        pos + 8 <= bytes@.len(),
    ensures
        le64(x) == bytes@.subrange(pos as int, pos + 8),
        x == from_le64(bytes@.subrange(pos as int, pos + 8)),
{
    let n = bytes.len();
    let lo = read_le32(bytes, pos);
    let hi = read_le32(bytes, pos + 4);
    let x: u64 = (lo as u64) | ((hi as u64) << 32);
    proof {
        lemma_le64_split(lo, hi, x);
        assert(bytes@.subrange(pos as int, pos + 8) =~= bytes@.subrange(pos as int, pos + 4)
            + bytes@.subrange(pos + 4, pos + 8));
        assert(le64(x) =~= le32(lo) + le32(hi));
        lemma_le64_inverse(x);
    }
    x
}

proof fn lemma_le64_split(lo: u32, hi: u32, x: u64)
    requires
        x == (lo as u64) | ((hi as u64) << 32),
    ensures
        x % 256 == lo % 256,
        (x / 0x100) % 256 == (lo / 0x100) % 256,
        (x / 0x10000) % 256 == (lo / 0x10000) % 256,
        (x / 0x1000000) % 256 == lo / 0x1000000,
        (x / 0x100000000) % 256 == hi % 256,
        (x / 0x10000000000) % 256 == (hi / 0x100) % 256,
        (x / 0x1000000000000) % 256 == (hi / 0x10000) % 256,
        x / 0x100000000000000 == hi / 0x1000000,
{
    assert(x % 256 == lo % 256 && (x / 0x100) % 256 == (lo / 0x100) % 256 && (x / 0x10000) % 256
        == (lo / 0x10000) % 256 && (x / 0x1000000) % 256 == lo / 0x1000000) by (bit_vector)
        requires
            x == (lo as u64) | ((hi as u64) << 32),
    ;
    assert((x / 0x100000000) % 256 == hi % 256 && (x / 0x10000000000) % 256 == (hi / 0x100) % 256
        && (x / 0x1000000000000) % 256 == (hi / 0x10000) % 256 && x / 0x100000000000000 == hi
        / 0x1000000) by (bit_vector)
        requires
            x == (lo as u64) | ((hi as u64) << 32),
    ;
}

/// The UTF-8 text held by `bytes`, if they are valid UTF-8.
///
/// Calls `std::str::from_utf8`, which accepts exactly the valid UTF-8 sequences
/// and returns the text they encode; nothing else about it is claimed.
#[verifier::external_body]
fn str_from_utf8(bytes: &[u8]) -> (r: Option<&str>)
    ensures
        r is Some <==> valid_utf8(bytes@),
        r matches Some(s) ==> s@ == decode_utf8(bytes@),
{
    std::str::from_utf8(bytes).ok()
}

/// The string encoded by `bytes[start..end]`, if those bytes are valid UTF-8.
pub fn utf8_string(bytes: &[u8], start: usize, end: usize) -> (r: Option<String>)
    requires
        start <= end <= bytes@.len(),
    ensures
        r is Some <==> valid_utf8(bytes@.subrange(start as int, end as int)),
        r matches Some(s) ==> encode_utf8(s@) == bytes@.subrange(start as int, end as int),
{
    let sub = vstd::slice::slice_subrange(bytes, start, end);
    match str_from_utf8(sub) {
        Some(s) => {
            proof {
                vstd::utf8::decode_utf8_encode_utf8(sub@);
            }
            Some(s.to_owned())
        },
        None => None,
    }
}

/// The UTF-8 bytes of `s`.
pub fn string_bytes(s: &String) -> (b: &[u8])
    ensures
        b@ == encode_utf8(s@),
{
    s.as_str().as_bytes()
}

/// Decoding the UTF-8 bytes of a string gives the string back.
pub proof fn lemma_utf8_roundtrip(c: Seq<char>)
    ensures
        valid_utf8(encode_utf8(c)),
        decode_utf8(encode_utf8(c)) == c,
{
    vstd::utf8::encode_utf8_valid_utf8(c);
    vstd::utf8::encode_utf8_decode_utf8(c);
}

} // verus!
