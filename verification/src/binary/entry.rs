//! A single field in binary form: FID (2 bytes, little-endian), type tag (1 byte)
//! and the value, whose encoding depends on the type.

use vstd::prelude::*;
use vstd::utf8::{decode_utf8, encode_utf8, valid_utf8};
use super::error::{BinaryError, BinaryErrorModel};
use super::types::{BinaryValue, TypeTag, tag_byte, model_tag, is_flat};
use super::varint::{self, sleb128, varint_parse, wrap_i64, lemma_varint_roundtrip};
use super::wire::{
    le16, le64, from_le16, from_le64, append_bytes, push_le16, push_le64, read_le16, read_le64,
    string_bytes, utf8_string, lemma_le64_inverse, lemma_utf8_roundtrip,
};
use crate::numfmt::{hex_digits, signed_decimal, push_hex, push_signed_decimal, string_of, push_str};
use crate::record::{FieldId, LnmpField, ValueModel, strings_model};

verus! {

/// Wire form of a string: its UTF-8 byte length as a varint, then the bytes.
pub open spec fn string_wire(s: Seq<char>) -> Seq<u8> {
    sleb128(encode_utf8(s).len() as int) + encode_utf8(s)
}

/// Wire form of a list of strings, one after another.
pub open spec fn strings_wire(a: Seq<Seq<char>>) -> Seq<u8>
    decreases a.len(),
{
    if a.len() == 0 {
        Seq::empty()
    } else {
        strings_wire(a.drop_last()) + string_wire(a.last())
    }
}

/// Wire form of a flat value, without its tag.
pub open spec fn flat_payload(v: ValueModel) -> Seq<u8> {
    match v {
        ValueModel::Int(i) => sleb128(i as int),
        ValueModel::Float(f) => le64(f),
        ValueModel::Bool(b) => seq![if b { 1u8 } else { 0u8 }],
        ValueModel::Str(s) => string_wire(s),
        ValueModel::StrArray(a) => sleb128(a.len() as int) + strings_wire(a),
        _ => Seq::empty(),
    }
}

/// Wire form of an entry.
pub open spec fn entry_wire(fid: u16, tag: TypeTag, v: ValueModel) -> Seq<u8> {
    le16(fid) + seq![tag_byte(tag)] + flat_payload(v)
}

/// Every string length and array count of a value fits in a signed 64-bit varint.
pub open spec fn value_fits(v: ValueModel) -> bool {
    match v {
        ValueModel::Str(s) => encode_utf8(s).len() <= i64::MAX,
        ValueModel::StrArray(a) => a.len() <= i64::MAX && forall|i: int|
            0 <= i < a.len() ==> encode_utf8(#[trigger] a[i]).len() <= i64::MAX,
        _ => true,
    }
}

/// The type tag whose wire byte is `b`, for `b` in 0x01..=0x0F.
pub open spec fn tag_of(b: u8) -> TypeTag {
    if b == 1 {
        TypeTag::Int
    } else if b == 2 {
        TypeTag::Float
    } else if b == 3 {
        TypeTag::Bool
    } else if b == 4 {
        TypeTag::String
    } else if b == 5 {
        TypeTag::StringArray
    } else if b == 6 {
        TypeTag::NestedRecord
    } else if b == 7 {
        TypeTag::NestedArray
    } else if b == 8 {
        TypeTag::Embedding
    } else if b == 9 {
        TypeTag::HybridNumericArray
    } else if b == 10 {
        TypeTag::QuantizedEmbedding
    } else if b == 11 {
        TypeTag::IntArray
    } else if b == 12 {
        TypeTag::FloatArray
    } else if b == 13 {
        TypeTag::BoolArray
    } else if b == 14 {
        TypeTag::Reserved0E
    } else {
        TypeTag::Reserved0F
    }
}

/// Bytes from position `off` to the end.
pub open spec fn tail(b: Seq<u8>, off: nat) -> Seq<u8> {
    b.subrange(off as int, b.len() as int)
}

/// Error for input that ends before `expected` bytes.
pub open spec fn eof_error(expected: int, found: nat) -> BinaryErrorModel {
    BinaryErrorModel::UnexpectedEof { expected: (expected as usize) as nat, found }
}

/// Reads a length-prefixed string at `off`; `bad_len` and `neg_len` word the errors
/// for an unreadable or negative length.
pub open spec fn parse_str(
    b: Seq<u8>,
    off: nat,
    fid: u16,
    tag: u8,
    bad_len: Seq<char>,
    neg_len: Seq<char>,
) -> Result<(Seq<char>, nat), BinaryErrorModel> {
    match varint_parse(tail(b, off)) {
        None => Err(BinaryErrorModel::InvalidValue { field_id: fid, type_tag: tag, reason: bad_len }),
        Some((l, n)) => {
            let start = off + n;
            if l < 0 {
                Err(
                    BinaryErrorModel::InvalidValue {
                        field_id: fid,
                        type_tag: tag,
                        reason: neg_len + signed_decimal(l),
                    },
                )
            } else if b.len() < start + l {
                Err(eof_error(start + l, b.len()))
            } else if !valid_utf8(b.subrange(start as int, start + l)) {
                Err(BinaryErrorModel::InvalidUtf8 { field_id: fid })
            } else {
                Ok((decode_utf8(b.subrange(start as int, start + l)), (start + l) as nat))
            }
        },
    }
}

/// Reads `k` strings of an array, one after another, starting at `off`.
pub open spec fn parse_str_list(b: Seq<u8>, off: nat, k: int, fid: u16) -> Result<
    (Seq<Seq<char>>, nat),
    BinaryErrorModel,
>
    decreases k,
{
    if k <= 0 {
        Ok((Seq::empty(), off))
    } else {
        match parse_str_list(b, off, k - 1, fid) {
            Err(e) => Err(e),
            Ok((xs, o)) => match parse_str(
                b,
                o,
                fid,
                5,
                "Invalid string length in array"@,
                "Negative string length in array: "@,
            ) {
                Err(e) => Err(e),
                Ok((s, o2)) => Ok((xs.push(s), o2)),
            },
        }
    }
}

/// Reads the value of type `tag` at `off`.
pub open spec fn parse_payload(b: Seq<u8>, off: nat, fid: u16, tag: TypeTag) -> Result<
    (ValueModel, nat),
    BinaryErrorModel,
> {
    match tag {
        TypeTag::Int => match varint_parse(tail(b, off)) {
            None => Err(
                BinaryErrorModel::InvalidValue {
                    field_id: fid,
                    type_tag: 1,
                    reason: "Invalid VarInt encoding"@,
                },
            ),
            Some((v, n)) => Ok((ValueModel::Int(v as i64), off + n)),
        },
        TypeTag::Float => if b.len() < off + 8 {
            Err(eof_error(off + 8int, b.len()))
        } else {
            Ok((ValueModel::Float(from_le64(b.subrange(off as int, off + 8int))), off + 8))
        },
        TypeTag::Bool => if b.len() < off + 1 {
            Err(eof_error(off + 1int, b.len()))
        } else if b[off as int] == 0 {
            Ok((ValueModel::Bool(false), off + 1))
        } else if b[off as int] == 1 {
            Ok((ValueModel::Bool(true), off + 1))
        } else {
            Err(
                BinaryErrorModel::InvalidValue {
                    field_id: fid,
                    type_tag: 3,
                    reason: "Invalid boolean value: 0x"@ + hex_digits(b[off as int] as nat, 2)
                        + " (expected 0x00 or 0x01)"@,
                },
            )
        },
        TypeTag::String => match parse_str(
            b,
            off,
            fid,
            4,
            "Invalid string length VarInt"@,
            "Negative string length: "@,
        ) {
            Err(e) => Err(e),
            Ok((s, o)) => Ok((ValueModel::Str(s), o)),
        },
        TypeTag::StringArray => match varint_parse(tail(b, off)) {
            None => Err(
                BinaryErrorModel::InvalidValue {
                    field_id: fid,
                    type_tag: 5,
                    reason: "Invalid array count VarInt"@,
                },
            ),
            Some((c, n)) => if c < 0 {
                Err(
                    BinaryErrorModel::InvalidValue {
                        field_id: fid,
                        type_tag: 5,
                        reason: "Negative array count: "@ + signed_decimal(c),
                    },
                )
            } else {
                match parse_str_list(b, off + n, c, fid) {
                    Err(e) => Err(e),
                    Ok((xs, o)) => Ok((ValueModel::StrArray(xs), o)),
                }
            },
        },
        TypeTag::NestedRecord | TypeTag::NestedArray => Err(
            BinaryErrorModel::InvalidValue {
                field_id: fid,
                type_tag: tag_byte(tag),
                reason: "Nested structure decoding not yet implemented - use BinaryNestedDecoder"@,
            },
        ),
        _ => Err(
            BinaryErrorModel::InvalidValue {
                field_id: fid,
                type_tag: tag_byte(tag),
                reason: "Reserved type tag 0x"@ + hex_digits(tag_byte(tag) as nat, 2)
                    + " cannot be used"@,
            },
        ),
    }
}

/// Reads the entry at the start of `b`: FID, tag, value and the number of bytes taken.
pub open spec fn parse_entry(b: Seq<u8>) -> Result<(u16, TypeTag, ValueModel, nat), BinaryErrorModel> {
    if b.len() < 2 {
        Err(eof_error(2, b.len()))
    } else if b.len() < 3 {
        Err(eof_error(3, b.len()))
    } else if !(1 <= b[2] <= 15) {
        Err(BinaryErrorModel::InvalidTypeTag { tag: b[2] })
    } else {
        let fid = from_le16(b[0], b[1]);
        match parse_payload(b, 3, fid, tag_of(b[2])) {
            Ok((v, n)) => Ok((fid, tag_of(b[2]), v, n)),
            Err(e) => Err(e),
        }
    }
}

proof fn lemma_parse_str_roundtrip(
    pre: Seq<u8>,
    x: Seq<char>,
    rest: Seq<u8>,
    fid: u16,
    tag: u8,
    bad_len: Seq<char>,
    neg_len: Seq<char>,
)
    requires
        encode_utf8(x).len() <= i64::MAX,
    ensures
        parse_str(pre + string_wire(x) + rest, pre.len(), fid, tag, bad_len, neg_len) == Ok::<
            (Seq<char>, nat),
            BinaryErrorModel,
        >((x, pre.len() + string_wire(x).len())),
{
    let b = pre + string_wire(x) + rest;
    let u = encode_utf8(x);
    let l = u.len() as i64;
    assert(tail(b, pre.len()) =~= sleb128(l as int) + (u + rest));
    lemma_varint_roundtrip(l, u + rest);
    let n = sleb128(l as int).len();
    assert(b.subrange((pre.len() + n) as int, (pre.len() + n + u.len()) as int) =~= u);
    lemma_utf8_roundtrip(x);
}

proof fn lemma_str_list_roundtrip(pre: Seq<u8>, a: Seq<Seq<char>>, rest: Seq<u8>, fid: u16)
    requires
        forall|i: int| 0 <= i < a.len() ==> encode_utf8(#[trigger] a[i]).len() <= i64::MAX,
    ensures
        parse_str_list(pre + strings_wire(a) + rest, pre.len(), a.len() as int, fid) == Ok::<
            (Seq<Seq<char>>, nat),
            BinaryErrorModel,
        >((a, pre.len() + strings_wire(a).len())),
    decreases a.len(),
{
    if a.len() > 0 {
        let init = a.drop_last();
        let x = a.last();
        let b = pre + strings_wire(a) + rest;
        assert(b =~= pre + strings_wire(init) + (string_wire(x) + rest));
        lemma_str_list_roundtrip(pre, init, string_wire(x) + rest, fid);
        assert(b =~= (pre + strings_wire(init)) + string_wire(x) + rest);
        assert(encode_utf8(a[a.len() - 1]).len() <= i64::MAX);
        lemma_parse_str_roundtrip(
            pre + strings_wire(init),
            x,
            rest,
            fid,
            5,
            "Invalid string length in array"@,
            "Negative string length in array: "@,
        );
        assert(init.push(x) =~= a);
        assert(strings_wire(a) == strings_wire(init) + string_wire(x));
        let o = pre.len() + strings_wire(init).len();
        assert(parse_str_list(b, pre.len(), a.len() - 1, fid) == Ok::<
            (Seq<Seq<char>>, nat),
            BinaryErrorModel,
        >((init, o)));
        assert(parse_str(b, o, fid, 5, "Invalid string length in array"@,
            "Negative string length in array: "@) == Ok::<(Seq<char>, nat), BinaryErrorModel>(
            (x, o + string_wire(x).len())));
    } else {
        assert(strings_wire(a) =~= Seq::<u8>::empty());
        assert(a =~= Seq::<Seq<char>>::empty());
    }
}

/// Reading the wire form of a flat entry, followed by any bytes, gives back the
/// entry's identifier, tag and value, and the length of its wire form.
pub proof fn lemma_entry_roundtrip(fid: u16, v: ValueModel, rest: Seq<u8>)
    requires
        is_flat(v),
        value_fits(v),
    ensures
        parse_entry(entry_wire(fid, model_tag(v), v) + rest) == Ok::<
            (u16, TypeTag, ValueModel, nat),
            BinaryErrorModel,
        >((fid, model_tag(v), v, entry_wire(fid, model_tag(v), v).len())),
{
    let tag = model_tag(v);
    let pre = le16(fid) + seq![tag_byte(tag)];
    let b = entry_wire(fid, tag, v) + rest;
    assert(b =~= pre + flat_payload(v) + rest);
    assert(b[0] == le16(fid)[0] && b[1] == le16(fid)[1] && b[2] == tag_byte(tag));
    super::wire::lemma_le16_inverse(fid);
    lemma_tag_of(tag);
    assert(pre.len() == 3);
    match v {
        ValueModel::Int(i) => {
            assert(tail(b, 3) =~= sleb128(i as int) + rest);
            lemma_varint_roundtrip(i, rest);
        },
        ValueModel::Float(f) => {
            assert(b.subrange(3, 11) =~= le64(f));
            lemma_le64_inverse(f);
        },
        ValueModel::Bool(x) => {
        },
        ValueModel::Str(x) => {
            lemma_parse_str_roundtrip(
                pre,
                x,
                rest,
                fid,
                4,
                "Invalid string length VarInt"@,
                "Negative string length: "@,
            );
        },
        ValueModel::StrArray(a) => {
            let c = a.len() as i64;
            assert(tail(b, 3) =~= sleb128(c as int) + (strings_wire(a) + rest));
            lemma_varint_roundtrip(c, strings_wire(a) + rest);
            let pre2 = pre + sleb128(c as int);
            assert(b =~= pre2 + strings_wire(a) + rest);
            lemma_str_list_roundtrip(pre2, a, rest, fid);
        },
        _ => {
        },
    }
}

proof fn lemma_parse_str_len(b: Seq<u8>, off: nat, fid: u16, tag: u8, x: Seq<char>, y: Seq<char>)
    requires
        off <= b.len(),
    ensures
        parse_str(b, off, fid, tag, x, y) matches Ok((_, o)) ==> off <= o <= b.len(),
{
    super::varint::lemma_varint_len(tail(b, off), 0);
}

proof fn lemma_str_list_len(b: Seq<u8>, off: nat, k: int, fid: u16)
    requires
        off <= b.len(),
    ensures
        parse_str_list(b, off, k, fid) matches Ok((_, o)) ==> off <= o <= b.len(),
    decreases k,
{
    if k > 0 {
        lemma_str_list_len(b, off, k - 1, fid);
        if let Ok((_, o)) = parse_str_list(b, off, k - 1, fid) {
            lemma_parse_str_len(b, o, fid, 5, "Invalid string length in array"@,
                "Negative string length in array: "@);
        }
    }
}

/// An entry never claims more bytes than it was read from.
pub proof fn lemma_entry_len(b: Seq<u8>)
    ensures
        parse_entry(b) matches Ok((_, _, _, n)) ==> 3 <= n <= b.len(),
{
    if b.len() >= 3 {
        super::varint::lemma_varint_len(tail(b, 3), 0);
        lemma_parse_str_len(b, 3, from_le16(b[0], b[1]), 4, "Invalid string length VarInt"@,
            "Negative string length: "@);
        if let Some((c, n)) = varint_parse(tail(b, 3)) {
            lemma_str_list_len(b, 3 + n, c, from_le16(b[0], b[1]));
        }
    }
}

/// A single field in binary form.
#[derive(Debug, Clone, PartialEq)]
pub struct BinaryEntry {
    /// Field identifier.
    pub fid: FieldId,
    /// Type tag.
    pub tag: TypeTag,
    /// The value.
    pub value: BinaryValue,
}

proof fn lemma_tag_of(t: TypeTag)
    ensures
        tag_of(tag_byte(t)) == t,
{
}

proof fn lemma_wrap_range(x: int)
    ensures
        i64::MIN <= wrap_i64(x) <= i64::MAX,
{
}

/// A string list parse that fails at some point fails the same way for any longer list.
proof fn lemma_str_list_err_extends(b: Seq<u8>, off: nat, i: int, k: int, fid: u16)
    requires
        0 <= i <= k,
        parse_str_list(b, off, i, fid) is Err,
    ensures
        parse_str_list(b, off, k, fid) == parse_str_list(b, off, i, fid),
    decreases k - i,
{
    if i < k {
        lemma_str_list_err_extends(b, off, i, k - 1, fid);
    }
}

/// Reads a length-prefixed string with exec code, as `parse_str` describes.
fn read_str(
    bytes: &[u8],
    off: usize,
    fid: u16,
    tag: u8,
    bad_len: &str,
    neg_len: &str,
) -> (r: Result<(String, usize), BinaryError>)
    requires
        off <= bytes@.len(),
    ensures
        match parse_str(bytes@, off as nat, fid, tag, bad_len@, neg_len@) {
            Ok((s, o)) => r matches Ok((x, m)) && x@ == s && m == o,
            Err(e) => r matches Err(x) && x@ == e,
        },
{
    let rest = vstd::slice::slice_subrange(bytes, off, bytes.len());
    let (length, consumed) = match varint::decode(rest) {
        Ok(p) => p,
        Err(_) => {
            return Err(
                BinaryError::InvalidValue { field_id: fid, type_tag: tag, reason: string_of(bad_len) },
            );
        },
    };
    proof {
        lemma_wrap_range(varint_parse(rest@).unwrap().0);
    }
    let start: usize = off + consumed;
    if length < 0 {
        let mut reason = string_of(neg_len);
        push_signed_decimal(&mut reason, length);
        return Err(BinaryError::InvalidValue { field_id: fid, type_tag: tag, reason });
    }
    if ((bytes.len() - start) as u64) < length as u64 {
        let expected: usize = ((start as u128) + (length as u128)) as usize;
        return Err(BinaryError::UnexpectedEof { expected, found: bytes.len() });
    }
    let end: usize = start + length as usize;
    match utf8_string(bytes, start, end) {
        Some(s) => {
            proof {
                lemma_utf8_roundtrip(s@);
            }
            Ok((s, end))
        },
        None => Err(BinaryError::InvalidUtf8 { field_id: fid }),
    }
}

impl BinaryEntry {
    /// Entry holding `value` under `fid`, tagged with the value's type.
    pub fn new(fid: FieldId, value: BinaryValue) -> (e: BinaryEntry)
        ensures
            e.fid == fid,
            e.tag == model_tag(value@),
            e.value == value,
    {
        let tag = value.type_tag();
        BinaryEntry { fid, tag, value }
    }

    /// Entry for a record field.
    pub fn from_field(field: &LnmpField) -> (r: Result<BinaryEntry, BinaryError>)
        ensures
            r matches Ok(e) && e.fid == field.fid && e.tag == model_tag(field.value@) && e.value@
                == field.value@,
    {
        let value = match BinaryValue::from_lnmp_value(&field.value) {
            Ok(v) => v,
            Err(e) => {
                return Err(e);
            },
        };
        let tag = value.type_tag();
        Ok(BinaryEntry { fid: field.fid, tag, value })
    }

    /// The record field this entry stands for.
    pub fn to_field(&self) -> (f: LnmpField)
        ensures
            f@.fid == self.fid,
            f@.value == self.value@,
    {
        LnmpField { fid: self.fid, value: self.value.to_lnmp_value() }
    }

    /// Type tag of this entry.
    pub fn type_tag(&self) -> (t: TypeTag)
        ensures
            t == self.tag,
    {
        self.tag
    }

    /// Wire form of this entry: FID (little-endian), tag byte, value.
    ///
    /// Only flat values have an entry encoding; nested values go through the
    /// nested encoder.
    pub fn encode(&self) -> (bytes: Vec<u8>)
        requires
            is_flat(self.value@),
            value_fits(self.value@),
        ensures
            bytes@ == entry_wire(self.fid, self.tag, self.value@),
    {
        let mut bytes: Vec<u8> = Vec::new();
        push_le16(&mut bytes, self.fid);
        bytes.push(self.tag.to_u8());
        let ghost head = bytes@;
        encode_flat_value(&self.value, &mut bytes);
        assert(bytes@ =~= entry_wire(self.fid, self.tag, self.value@));
        bytes
    }

    /// Reads the entry at the start of `bytes`, returning it and the number of
    /// bytes it takes; bytes after it are not looked at.
    pub fn decode(bytes: &[u8]) -> (res: Result<(BinaryEntry, usize), BinaryError>)
        ensures
            match parse_entry(bytes@) {
                Ok((fid, tag, v, n)) => res matches Ok((e, m)) && e.fid == fid && e.tag == tag
                    && e.value@ == v && m == n,
                Err(err) => res matches Err(e) && e@ == err,
            },
    {
        if bytes.len() < 2 {
            return Err(BinaryError::UnexpectedEof { expected: 2, found: bytes.len() });
        }
        let fid = read_le16(bytes[0], bytes[1]);
        if bytes.len() < 3 {
            return Err(BinaryError::UnexpectedEof { expected: 3, found: bytes.len() });
        }
        let tag = match TypeTag::from_u8(bytes[2]) {
            Ok(t) => t,
            Err(e) => {
                return Err(e);
            },
        };
        proof {
            lemma_tag_of(tag);
        }
        let (value, end) = match decode_payload(bytes, 3, fid, tag) {
            Ok(p) => p,
            Err(e) => {
                return Err(e);
            },
        };
        Ok((BinaryEntry { fid, tag, value }, end))
    }
}

/// Appends the wire form of a flat value (without tag) to `bytes`.
pub fn encode_flat_value(value: &BinaryValue, bytes: &mut Vec<u8>)
    requires
        is_flat(value@),
        value_fits(value@),
    ensures
        final(bytes)@ == old(bytes)@ + flat_payload(value@),
{
    match value {
        BinaryValue::Int(i) => {
            let enc = varint::encode(*i);
            append_bytes(bytes, enc.as_slice());
        },
        BinaryValue::Float(f) => {
            push_le64(bytes, *f);
        },
        BinaryValue::Bool(b) => {
            bytes.push(if *b { 1u8 } else { 0u8 });
            assert(bytes@ =~= old(bytes)@ + flat_payload(value@));
        },
        BinaryValue::String(s) => {
            push_string(bytes, s);
        },
        BinaryValue::StringArray(arr) => {
            let enc = varint::encode(arr.len() as i64);
            append_bytes(bytes, enc.as_slice());
            let ghost start = bytes@;
            let ghost a = strings_model(arr@);
            let mut i: usize = 0;
            while i < arr.len()
                invariant
                    i <= arr@.len(),
                    a == strings_model(arr@),
                    forall|j: int| 0 <= j < a.len() ==> encode_utf8(#[trigger] a[j]).len() <= i64::MAX,
                    bytes@ == start + strings_wire(a.subrange(0, i as int)),
                decreases arr@.len() - i,
            {
                let ghost pre = bytes@;
                assert(a[i as int] == arr@[i as int]@);
                push_string(bytes, &arr[i]);
                proof {
                    let t = a.subrange(0, i + 1);
                    assert(t.drop_last() =~= a.subrange(0, i as int));
                    assert(t.last() == arr@[i as int]@);
                }
                i += 1;
            }
            assert(a.subrange(0, arr@.len() as int) =~= a);
        },
        _ => {
            assert(false);
        },
    }
}

/// Appends the wire form of a string (length varint and UTF-8 bytes) to `bytes`.
pub fn push_string(bytes: &mut Vec<u8>, s: &String)
    requires
        encode_utf8(s@).len() <= i64::MAX,
    ensures
        final(bytes)@ == old(bytes)@ + string_wire(s@),
{
    let utf8 = string_bytes(s);
    let enc = varint::encode(utf8.len() as i64);
    append_bytes(bytes, enc.as_slice());
    append_bytes(bytes, utf8);
    assert(bytes@ =~= old(bytes)@ + string_wire(s@));
}

/// Reads `count` strings of an array, as `parse_str_list` describes.
fn read_str_list(bytes: &[u8], off: usize, count: i64, fid: u16) -> (r: Result<
    (Vec<String>, usize),
    BinaryError,
>)
    requires
        off <= bytes@.len(),
        count >= 0,
    ensures
        match parse_str_list(bytes@, off as nat, count as int, fid) {
            Ok((xs, o)) => r matches Ok((v, m)) && strings_model(v@) == xs && m == o,
            Err(e) => r matches Err(x) && x@ == e,
        },
{
    let mut offset: usize = off;
    let ghost off0 = off as nat;
    let mut strings: Vec<String> = Vec::new();
    assert(strings_model(strings@) =~= Seq::<Seq<char>>::empty());
    let mut i: i64 = 0;
    while i < count
        invariant
            0 <= i <= count,
            off0 <= offset <= bytes@.len(),
            off0 == off,
            parse_str_list(bytes@, off0, i as int, fid) == Ok::<
                (Seq<Seq<char>>, nat),
                BinaryErrorModel,
            >((strings_model(strings@), offset as nat)),
        decreases count - i,
    {
        match read_str(
            bytes,
            offset,
            fid,
            5,
            "Invalid string length in array",
            "Negative string length in array: ",
        ) {
            Ok((s, o)) => {
                let ghost before = strings@;
                strings.push(s);
                proof {
                    assert(strings_model(strings@) =~= strings_model(before).push(s@));
                }
                offset = o;
            },
            Err(e) => {
                proof {
                    assert(parse_str_list(bytes@, off0, i + 1, fid) == Err::<
                        (Seq<Seq<char>>, nat),
                        BinaryErrorModel,
                    >(e@));
                    lemma_str_list_err_extends(bytes@, off0, i + 1, count as int, fid);
                }
                return Err(e);
            },
        }
        i += 1;
    }
    Ok((strings, offset))
}

/// Reads the value of type `tag` at `off`, as `parse_payload` describes.
fn decode_payload(bytes: &[u8], off: usize, fid: u16, tag: TypeTag) -> (r: Result<
    (BinaryValue, usize),
    BinaryError,
>)
    requires
        off <= bytes@.len(),
    ensures
        match parse_payload(bytes@, off as nat, fid, tag) {
            Ok((v, n)) => r matches Ok((x, m)) && x@ == v && m == n,
            Err(e) => r matches Err(x) && x@ == e,
        },
{
    match tag {
        TypeTag::Int => {
            let rest = vstd::slice::slice_subrange(bytes, off, bytes.len());
            match varint::decode(rest) {
                Ok((v, n)) => Ok((BinaryValue::Int(v), off + n)),
                Err(_) => Err(
                    BinaryError::InvalidValue {
                        field_id: fid,
                        type_tag: 1,
                        reason: string_of("Invalid VarInt encoding"),
                    },
                ),
            }
        },
        TypeTag::Float => {
            if bytes.len() - off < 8 {
                let expected: usize = ((off as u128) + 8) as usize;
                return Err(BinaryError::UnexpectedEof { expected, found: bytes.len() });
            }
            let f = read_le64(bytes, off);
            Ok((BinaryValue::Float(f), off + 8))
        },
        TypeTag::Bool => {
            if bytes.len() - off < 1 {
                let expected: usize = ((off as u128) + 1) as usize;
                return Err(BinaryError::UnexpectedEof { expected, found: bytes.len() });
            }
            let b = bytes[off];
            if b == 0 {
                Ok((BinaryValue::Bool(false), off + 1))
            } else if b == 1 {
                Ok((BinaryValue::Bool(true), off + 1))
            } else {
                let mut reason = string_of("Invalid boolean value: 0x");
                push_hex(&mut reason, b as u64, 2);
                push_str(&mut reason, " (expected 0x00 or 0x01)");
                Err(BinaryError::InvalidValue { field_id: fid, type_tag: 3, reason })
            }
        },
        TypeTag::String => {
            match read_str(
                bytes,
                off,
                fid,
                4,
                "Invalid string length VarInt",
                "Negative string length: ",
            ) {
                Ok((s, o)) => Ok((BinaryValue::String(s), o)),
                Err(e) => Err(e),
            }
        },
        TypeTag::StringArray => {
            let rest = vstd::slice::slice_subrange(bytes, off, bytes.len());
            let (count, consumed) = match varint::decode(rest) {
                Ok(p) => p,
                Err(_) => {
                    return Err(
                        BinaryError::InvalidValue {
                            field_id: fid,
                            type_tag: 5,
                            reason: string_of("Invalid array count VarInt"),
                        },
                    );
                },
            };
            proof {
                lemma_wrap_range(varint_parse(rest@).unwrap().0);
            }
            if count < 0 {
                let mut reason = string_of("Negative array count: ");
                push_signed_decimal(&mut reason, count);
                return Err(BinaryError::InvalidValue { field_id: fid, type_tag: 5, reason });
            }
            match read_str_list(bytes, off + consumed, count, fid) {
                Ok((strings, offset)) => Ok((BinaryValue::StringArray(strings), offset)),
                Err(e) => Err(e),
            }
        },
        TypeTag::NestedRecord | TypeTag::NestedArray => {
            Err(
                BinaryError::InvalidValue {
                    field_id: fid,
                    type_tag: tag.to_u8(),
                    reason: string_of(
                        "Nested structure decoding not yet implemented - use BinaryNestedDecoder",
                    ),
                },
            )
        },
        _ => {
            let tb = tag.to_u8();
            let mut reason = string_of("Reserved type tag 0x");
            push_hex(&mut reason, tb as u64, 2);
            push_str(&mut reason, " cannot be used");
            Err(BinaryError::InvalidValue { field_id: fid, type_tag: tb, reason })
        },
    }
}

} // verus!
