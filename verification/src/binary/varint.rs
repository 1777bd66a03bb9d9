//! Variable-length signed integers in LEB128 form.
//!
//! Each byte carries seven bits of the value, least significant group first;
//! the high bit of a byte is set when more bytes follow. The last group is
//! sign-extended from its bit 6.

use vstd::prelude::*;
use super::error::BinaryError;

verus! {

/// Distance of an integer from the nearer of 0 and -1, the two values that an
/// arithmetic shift by seven bits leaves unchanged.
pub open spec fn shift_measure(v: int) -> nat {
    if v >= 0 {
        v as nat
    } else {
        (-v - 1) as nat
    }
}

/// Whether the seven-bit group `v % 128` is the last one of the encoding of `v`:
/// the rest of the value is all sign, and bit 6 of the group carries that sign.
pub open spec fn is_last_group(v: int) -> bool {
    (v / 128 == 0 && v % 128 < 64) || (v / 128 == -1 && v % 128 >= 64)
}

pub proof fn lemma_shift_measure_decreases(v: int)
    requires
        !is_last_group(v),
    ensures
        shift_measure(v / 128) < shift_measure(v),
{
}

/// The signed LEB128 encoding of `v`: the shortest sequence of seven-bit groups,
/// least significant first, whose last group carries the sign in bit 6.
pub open spec fn sleb128(v: int) -> Seq<u8>
    decreases shift_measure(v),
{
    if is_last_group(v) {
        seq![(v % 128) as u8]
    } else {
        proof {
            lemma_shift_measure_decreases(v);
        }
        seq![(v % 128 + 128) as u8] + sleb128(v / 128)
    }
}

/// Value of a sequence of seven-bit groups, least significant first, whose last
/// group is sign-extended from bit 6.
pub open spec fn sleb_value(s: Seq<u8>) -> int
    decreases s.len(),
{
    if s.len() == 0 {
        0
    } else if s.len() == 1 {
        if s[0] % 128 >= 64 {
            s[0] % 128 - 128
        } else {
            (s[0] % 128) as int
        }
    } else {
        s[0] % 128 + 128 * sleb_value(s.drop_first())
    }
}

/// Reduction of an integer to a signed 64-bit value (two's complement wrap-around).
pub open spec fn wrap_i64(x: int) -> int {
    let m = x % 0x1_0000_0000_0000_0000;
    if m >= 0x8000_0000_0000_0000 {
        m - 0x1_0000_0000_0000_0000
    } else {
        m
    }
}

/// Length of the varint at position `i` onwards: the bytes up to and including the
/// first one whose high bit is clear, looked for among the first ten bytes.
pub open spec fn varint_len_from(bytes: Seq<u8>, i: nat) -> Option<nat>
    decreases 10 - i,
{
    if i >= 10 || i >= bytes.len() {
        None
    } else if bytes[i as int] < 128 {
        Some(i + 1)
    } else {
        varint_len_from(bytes, i + 1)
    }
}

/// A varint never claims more bytes than it was read from.
pub proof fn lemma_varint_len(bytes: Seq<u8>, i: nat)
    ensures
        varint_len_from(bytes, i) matches Some(n) ==> 1 <= n <= bytes.len() && n <= 10,
    decreases 10 - i,
{
    if i < 10 && i < bytes.len() && bytes[i as int] >= 128 {
        lemma_varint_len(bytes, i + 1);
    }
}

/// The varint at the start of `bytes`: its value, reduced to 64 bits, and its length.
pub open spec fn varint_parse(bytes: Seq<u8>) -> Option<(int, nat)> {
    match varint_len_from(bytes, 0) {
        Some(n) => Some((wrap_i64(sleb_value(bytes.take(n as int))), n)),
        None => None,
    }
}

/// Reason reported for a byte sequence that holds no complete varint.
pub open spec fn varint_error_reason(bytes: Seq<u8>) -> Seq<char> {
    if bytes.len() == 0 {
        "empty input"@
    } else if bytes.len() > 10 {
        "VarInt too long (max 10 bytes for i64)"@
    } else {
        "incomplete VarInt (missing terminating byte)"@
    }
}

/// 128 raised to the power `k`.
pub open spec fn pow128(k: nat) -> int
    decreases k,
{
    if k == 0 {
        1
    } else {
        128 * pow128((k - 1) as nat)
    }
}

proof fn lemma_pow128_facts(k: nat)
    requires
        k <= 10,
    ensures
        1 <= pow128(k) <= pow128(10),
        pow128(10) == 0x400000_0000_0000_0000,
        k >= 1 ==> pow128(k) % 2 == 0,
    decreases k,
{
    reveal_with_fuel(pow128, 11);
    if k > 0 && k < 10 {
        lemma_pow128_facts((k - 1) as nat);
        lemma_pow128_monotone(k, 10);
    }
}

proof fn lemma_pow128_monotone(a: nat, b: nat)
    requires
        a <= b,
    ensures
        pow128(a) <= pow128(b),
        pow128(a) >= 1,
    decreases b,
{
    if b > 0 {
        if a < b {
            lemma_pow128_monotone(a, (b - 1) as nat);
        } else {
            lemma_pow128_monotone((a - 1) as nat, (b - 1) as nat);
        }
    }
}

/// Every group but the last has its high bit set; the last does not.
proof fn lemma_sleb128_shape(v: int)
    ensures
        sleb128(v).len() >= 1,
        forall|j: int| 0 <= j < sleb128(v).len() - 1 ==> sleb128(v)[j] >= 128,
        sleb128(v)[sleb128(v).len() - 1] < 128,
    decreases shift_measure(v),
{
    if !is_last_group(v) {
        lemma_shift_measure_decreases(v);
        lemma_sleb128_shape(v / 128);
        let tail = sleb128(v / 128);
        assert(sleb128(v) == seq![(v % 128 + 128) as u8] + tail);
        assert forall|j: int| 0 <= j < sleb128(v).len() - 1 implies sleb128(v)[j] >= 128 by {
            if j > 0 {
                assert(sleb128(v)[j] == tail[j - 1]);
            }
        }
    }
}

/// A value whose doubled magnitude stays below `128^k` takes at most `k` groups.
proof fn lemma_sleb128_len(v: int, k: nat)
    requires
        k >= 1,
        -pow128(k) <= 2 * v < pow128(k),
    ensures
        sleb128(v).len() <= k,
    decreases k,
{
    reveal_with_fuel(pow128, 2);
    if !is_last_group(v) {
        if k == 1 {
            assert(false);
        } else {
            let p = pow128((k - 1) as nat);
            lemma_pow128_monotone(1, (k - 1) as nat);
            assert(p % 2 == 0) by {
                lemma_pow128_even((k - 1) as nat);
            }
            lemma_shift_measure_decreases(v);
            lemma_sleb128_len(v / 128, (k - 1) as nat);
        }
    }
}

proof fn lemma_pow128_even(k: nat)
    requires
        k >= 1,
    ensures
        pow128(k) % 2 == 0,
{
}

/// The groups of the encoding of `v` add back up to `v`.
proof fn lemma_sleb128_value(v: int)
    ensures
        sleb_value(sleb128(v)) == v,
    decreases shift_measure(v),
{
    if !is_last_group(v) {
        lemma_shift_measure_decreases(v);
        lemma_sleb128_value(v / 128);
        lemma_sleb128_shape(v / 128);
        let s = sleb128(v);
        assert(s.drop_first() =~= sleb128(v / 128));
    }
}

/// The length scan stops at the first byte whose high bit is clear.
proof fn lemma_len_scan(bytes: Seq<u8>, n: nat, i: nat)
    requires
        1 <= n <= 10,
        n <= bytes.len(),
        i < n,
        forall|j: int| i <= j < n - 1 ==> bytes[j] >= 128,
        bytes[n - 1] < 128,
    ensures
        varint_len_from(bytes, i) == Some(n),
    decreases n - i,
{
    if i + 1 < n {
        lemma_len_scan(bytes, n, i + 1);
    }
}

proof fn lemma_wrap_i64_identity(x: int)
    requires
        i64::MIN <= x <= i64::MAX,
    ensures
        wrap_i64(x) == x,
{
}

/// Decoding the encoding of `v`, followed by any bytes at all, gives back `v`
/// and the length of its encoding.
pub proof fn lemma_varint_roundtrip(v: i64, rest: Seq<u8>)
    ensures
        varint_parse(sleb128(v as int) + rest) == Some((v as int, sleb128(v as int).len())),
        1 <= sleb128(v as int).len() <= 10,
{
    let enc = sleb128(v as int);
    let all = enc + rest;
    lemma_sleb128_shape(v as int);
    lemma_pow128_facts(10);
    lemma_sleb128_len(v as int, 10);
    assert forall|j: int| 0 <= j < enc.len() - 1 implies all[j] >= 128 by {
        assert(all[j] == enc[j]);
    }
    assert(all[enc.len() - 1] == enc[enc.len() - 1]);
    lemma_len_scan(all, enc.len(), 0);
    assert(all.take(enc.len() as int) =~= enc);
    lemma_sleb128_value(v as int);
    lemma_wrap_i64_identity(v as int);
}

/// Unfolding of `sleb_value` over a suffix of a byte sequence.
proof fn lemma_sleb_value_step(s: Seq<u8>, j: int, n: int)
    requires
        0 <= j,
        j + 2 <= n <= s.len(),
    ensures
        sleb_value(s.subrange(j, n)) == s[j] % 128 + 128 * sleb_value(s.subrange(j + 1, n)),
{
    assert(s.subrange(j, n).drop_first() =~= s.subrange(j + 1, n));
}

proof fn lemma_group_bits(val: i64)
    ensures
        (val & 0x7f) as int == val % 128,
        (val >> 7) as int == val / 128,
{
    assert((val & 0x7f) == val % 128) by (bit_vector);
    assert((val >> 7) == val / 128) by (bit_vector);
}

proof fn lemma_wrap_cast(x: i128)
    ensures
        (x as i64) as int == wrap_i64(x as int),
{
    assert((x as i64) as int == wrap_i64(x as int)) by (bit_vector);
}

/// Encodes a signed 64-bit integer as a signed LEB128 varint of one to ten bytes.
pub fn encode(value: i64) -> (bytes: Vec<u8>)
    ensures
        bytes@ == sleb128(value as int),
        1 <= bytes@.len() <= 10,
{
    proof {
        lemma_varint_roundtrip(value, Seq::empty());
    }
    let mut result: Vec<u8> = Vec::new();
    let mut val: i64 = value;
    loop
        invariant
            result@ + sleb128(val as int) == sleb128(value as int),
            1 <= sleb128(value as int).len() <= 10,
        decreases shift_measure(val as int),
    {
        proof {
            lemma_group_bits(val);
        }
        let byte: u8 = (val & 0x7f) as u8;
        let rest: i64 = val >> 7;
        if (rest == 0 && byte < 64) || (rest == -1 && byte >= 64) {
            result.push(byte);
            proof {
                assert(result@ =~= sleb128(value as int));
            }
            return result;
        } else {
            proof {
                lemma_shift_measure_decreases(val as int);
                assert(sleb128(val as int) == seq![(byte + 128) as u8] + sleb128(rest as int));
                assert(result@.push((byte + 128) as u8) + sleb128(rest as int) =~= result@
                    + sleb128(val as int));
            }
            result.push(byte + 128);
            val = rest;
        }
    }
}

/// Decodes the varint at the start of `bytes`, returning its value and the number
/// of bytes it takes. Bytes after the varint are not looked at.
pub fn decode(bytes: &[u8]) -> (res: Result<(i64, usize), BinaryError>)
    ensures
        match varint_parse(bytes@) {
            Some((v, n)) => res matches Ok((x, m)) && x as int == v && m as nat == n,
            None => res matches Err(BinaryError::InvalidVarInt { reason }) && reason@
                == varint_error_reason(bytes@),
        },
        res matches Ok((_, m)) ==> 1 <= m <= 10 && m <= bytes@.len(),
{
    if bytes.len() == 0 {
        return Err(BinaryError::InvalidVarInt { reason: String::from_str("empty input") });
    }
    let mut i: usize = 0;
    while i < bytes.len() && i < 10 && bytes[i] >= 128
        invariant
            i <= 10,
            i <= bytes@.len(),
            varint_len_from(bytes@, 0) == varint_len_from(bytes@, i as nat),
        decreases 10 - i,
    {
        i += 1;
    }
    if i == bytes.len() || i == 10 {
        if bytes.len() > 10 {
            return Err(
                BinaryError::InvalidVarInt {
                    reason: String::from_str("VarInt too long (max 10 bytes for i64)"),
                },
            );
        }
        return Err(
            BinaryError::InvalidVarInt {
                reason: String::from_str("incomplete VarInt (missing terminating byte)"),
            },
        );
    }
    let n: usize = i + 1;
    let last: u8 = bytes[i];
    let mut acc: i128 = if last >= 64 {
        last as i128 - 128
    } else {
        last as i128
    };
    proof {
        lemma_pow128_facts(1);
        reveal_with_fuel(pow128, 2);
        assert(bytes@.subrange(i as int, n as int) =~= seq![last]);
    }
    let mut j: usize = i;
    while j > 0
        invariant
            j <= i,
            n == i + 1,
            n <= 10,
            n <= bytes@.len(),
            acc as int == sleb_value(bytes@.subrange(j as int, n as int)),
            -pow128((n - j) as nat) <= acc < pow128((n - j) as nat),
        decreases j,
    {
        proof {
            lemma_pow128_facts((n - j) as nat);
            lemma_sleb_value_step(bytes@, j - 1, n as int);
        }
        j -= 1;
        let d: i128 = (bytes[j] % 128) as i128;
        proof {
            let k = (n - j - 1) as nat;
            assert(pow128(k + 1) == 128 * pow128(k));
            assert(-pow128(k + 1) <= 128 * acc + d < pow128(k + 1)) by (nonlinear_arith)
                requires
                    -pow128(k) <= acc < pow128(k),
                    0 <= d < 128,
                    pow128(k + 1) == 128 * pow128(k),
            ;
        }
        acc = acc * 128 + d;
    }
    proof {
        lemma_wrap_cast(acc);
        assert(bytes@.subrange(0, n as int) =~= bytes@.take(n as int));
    }
    Ok((acc as i64, n))
}

} // verus!
