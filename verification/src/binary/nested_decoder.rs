//! Decoding of nested records and arrays (v0.5).
//!
//! A nested record is its tag (0x06), a field count (varint) and the fields,
//! each a field identifier (varint) followed by a tagged value; a nested array
//! is its tag (0x07), an element count (varint) and the records. Depth is
//! counted from the outermost structure and bounded by the configuration.

use vstd::prelude::*;
use vstd::utf8::{decode_utf8, encode_utf8, valid_utf8};
use super::error::{BinaryError, BinaryErrorModel};
use super::entry::{tag_of, tail};
use super::types::{TypeTag, tag_byte};
use super::varint::{self, varint_parse, varint_error_reason, lemma_varint_len};
use super::wire::{from_le64, read_le64, utf8_string, lemma_utf8_roundtrip};
use crate::numfmt::{signed_decimal, push_str, push_signed_decimal, string_of};
use crate::record::{LnmpField, LnmpRecord, LnmpValue, FieldModel, ValueModel, sort_by_fid};
use super::nested_encoder::{
    NestedEncoderConfig, enc_value, enc_record, enc_fields, enc_array, enc_elems, n_string_wire,
    n_strings_wire, n_flat_wire, over_limit, canon_value, canon_record, canon_fields, canon_records,
    count_fits, v_fits, r_fits, fs_fit, rs_fit, vsize, fsize, rsize, lemma_fsize_sort,
    lemma_enc_fields_prefix, lemma_enc_elems_prefix,
};
use super::varint::{sleb128, lemma_varint_roundtrip};
use super::wire::{le64, lemma_le64_inverse};

verus! {

/// Configuration of the nested decoder.
#[derive(Debug, Clone, Copy, PartialEq, Eq, Structural)]
pub struct NestedDecoderConfig {
    /// Whether nested values are accepted inside records.
    pub allow_nested: bool,
    /// Whether nesting rules are checked.
    pub validate_nesting: bool,
    /// Deepest nesting allowed.
    pub max_depth: usize,
}

impl NestedDecoderConfig {
    /// The default configuration: nesting allowed, not validated, depth 32.
    pub open spec fn spec_default() -> NestedDecoderConfig {
        NestedDecoderConfig { allow_nested: true, validate_nesting: false, max_depth: 32 }
    }

    /// The default configuration: nesting allowed, not validated, depth 32.
    pub fn new() -> (c: Self)
        ensures
            c == Self::spec_default(),
    {
        NestedDecoderConfig { allow_nested: true, validate_nesting: false, max_depth: 32 }
    }

    /// Sets whether nested values are accepted.
    pub fn with_allow_nested(self, allow: bool) -> (c: Self)
        ensures
            c == (NestedDecoderConfig { allow_nested: allow, ..self }),
    {
        NestedDecoderConfig { allow_nested: allow, ..self }
    }

    /// Sets whether nesting rules are checked.
    pub fn with_validate_nesting(self, validate: bool) -> (c: Self)
        ensures
            c == (NestedDecoderConfig { validate_nesting: validate, ..self }),
    {
        NestedDecoderConfig { validate_nesting: validate, ..self }
    }

    /// Sets the deepest nesting allowed.
    pub fn with_max_depth(self, max_depth: usize) -> (c: Self)
        ensures
            c == (NestedDecoderConfig { max_depth, ..self }),
    {
        NestedDecoderConfig { max_depth, ..self }
    }
}

impl Default for NestedDecoderConfig {
    fn default() -> (c: Self)
        ensures
            c == Self::spec_default(),
    {
        Self::new()
    }
}

/// Levels of nesting left below the maximum.
pub open spec fn depth_left(d: nat, max: nat) -> nat {
    if d < max {
        (max - d) as nat
    } else {
        0
    }
}

/// Count carried by a varint value.
pub open spec fn count_of(v: int) -> nat {
    ((v as i64) as usize) as nat
}

/// End of the input too early, with the size of the slice being read.
pub open spec fn eof_at(expected: usize, found: int) -> BinaryErrorModel {
    BinaryErrorModel::UnexpectedEof { expected: expected as nat, found: found as nat }
}

/// Error for bytes that hold no varint at `off`.
pub open spec fn varint_error_at(b: Seq<u8>, off: int) -> BinaryErrorModel {
    BinaryErrorModel::InvalidVarInt { reason: varint_error_reason(b.subrange(off, b.len() as int)) }
}

/// Reads the nested record that starts at `off`, at depth `d`: its fields and
/// where it ends.
pub open spec fn p_record(b: Seq<u8>, off: int, d: nat, cfg: NestedDecoderConfig) -> Result<
    (Seq<FieldModel>, int),
    BinaryErrorModel,
>
    decreases depth_left(d, cfg.max_depth as nat), 2nat, 0nat,
{
    if d >= cfg.max_depth {
        Err(BinaryErrorModel::NestingDepthExceeded { depth: d, max: cfg.max_depth as nat })
    } else if off >= b.len() {
        Err(eof_at(1, b.len() - off))
    } else if b[off] != 6 {
        Err(BinaryErrorModel::InvalidTypeTag { tag: b[off] })
    } else {
        match varint_parse(b.subrange(off + 1, b.len() as int)) {
            None => Err(varint_error_at(b, off + 1)),
            Some((c, n)) => if c < 0 {
                Err(
                    BinaryErrorModel::InvalidNestedStructure {
                        reason: "Negative field count: "@ + signed_decimal(c),
                    },
                )
            } else {
                p_fields(b, off + 1 + n, count_of(c), d, cfg)
            },
        }
    }
}

/// Reads `k` fields one after another from `off`, at depth `d`.
pub open spec fn p_fields(b: Seq<u8>, off: int, k: nat, d: nat, cfg: NestedDecoderConfig) -> Result<
    (Seq<FieldModel>, int),
    BinaryErrorModel,
>
    decreases depth_left(d, cfg.max_depth as nat), 1nat, k,
{
    if k == 0 {
        Ok((Seq::empty(), off))
    } else {
        match varint_parse(b.subrange(off, b.len() as int)) {
            None => Err(varint_error_at(b, off)),
            Some((f, n)) => if f < 0 || f > 65535 {
                Err(
                    BinaryErrorModel::InvalidFID {
                        fid: (f as i64) as u16,
                        reason: "FID out of range: "@ + signed_decimal(f),
                    },
                )
            } else {
                match p_value(b, off + n, d, cfg) {
                    Err(e) => Err(e),
                    Ok((v, o)) => match p_fields(b, o, (k - 1) as nat, d, cfg) {
                        Err(e) => Err(e),
                        Ok((rest, e)) => Ok((seq![FieldModel { fid: f as u16, value: v }] + rest, e)),
                    },
                }
            },
        }
    }
}

/// Reads a length-prefixed string at `pos` of the value that starts at
/// `start`; `neg` words the error for a negative length.
pub open spec fn p_string(b: Seq<u8>, start: int, pos: int, tag: u8, neg: Seq<char>) -> Result<
    (Seq<char>, int),
    BinaryErrorModel,
> {
    match varint_parse(b.subrange(pos, b.len() as int)) {
        None => Err(varint_error_at(b, pos)),
        Some((l, n)) => if l < 0 {
            Err(
                BinaryErrorModel::InvalidValue {
                    field_id: 0,
                    type_tag: tag,
                    reason: neg + signed_decimal(l),
                },
            )
        } else {
            let rel = (pos + n - start) as usize;
            let lu = (l as i64) as usize;
            if b.len() - start < rel + lu {
                Err(eof_at(rel.wrapping_add(lu), b.len() - start))
            } else if !valid_utf8(b.subrange(pos + n, pos + n + lu)) {
                Err(BinaryErrorModel::InvalidUtf8 { field_id: 0 })
            } else {
                Ok((decode_utf8(b.subrange(pos + n, pos + n + lu)), pos + n + lu))
            }
        },
    }
}

/// Reads `k` strings of an array one after another from `pos`, in the value
/// that starts at `start`.
pub open spec fn p_strings(b: Seq<u8>, start: int, pos: int, k: nat) -> Result<
    (Seq<Seq<char>>, int),
    BinaryErrorModel,
>
    decreases k,
{
    if k == 0 {
        Ok((Seq::empty(), pos))
    } else {
        match p_string(b, start, pos, 5, "Negative string length in array: "@) {
            Err(e) => Err(e),
            Ok((s, o)) => match p_strings(b, start, o, (k - 1) as nat) {
                Err(e) => Err(e),
                Ok((rest, e)) => Ok((seq![s] + rest, e)),
            },
        }
    }
}

/// Reads the tagged value that starts at `off`, at depth `d`.
pub open spec fn p_value(b: Seq<u8>, off: int, d: nat, cfg: NestedDecoderConfig) -> Result<
    (ValueModel, int),
    BinaryErrorModel,
>
    decreases depth_left(d, cfg.max_depth as nat), 0nat, 0nat,
{
    if d >= cfg.max_depth {
        Err(BinaryErrorModel::NestingDepthExceeded { depth: d, max: cfg.max_depth as nat })
    } else if off >= b.len() {
        Err(eof_at(1, b.len() - off))
    } else if !(1 <= b[off] <= 15) {
        Err(BinaryErrorModel::InvalidTypeTag { tag: b[off] })
    } else {
        let t = b[off];
        match tag_of(t) {
            TypeTag::Int => match varint_parse(b.subrange(off + 1, b.len() as int)) {
                None => Err(varint_error_at(b, off + 1)),
                Some((v, n)) => Ok((ValueModel::Int(v as i64), off + 1 + n)),
            },
            TypeTag::Float => if b.len() - off < 9 {
                Err(eof_at(9, b.len() - off))
            } else {
                Ok((ValueModel::Float(from_le64(b.subrange(off + 1, off + 9))), off + 9))
            },
            TypeTag::Bool => if b.len() - off < 2 {
                Err(eof_at(2, b.len() - off))
            } else {
                Ok((ValueModel::Bool(b[off + 1] != 0), off + 2))
            },
            TypeTag::String => match p_string(b, off, off + 1, t, "Negative string length: "@) {
                Err(e) => Err(e),
                Ok((s, o)) => Ok((ValueModel::Str(s), o)),
            },
            TypeTag::StringArray => match varint_parse(b.subrange(off + 1, b.len() as int)) {
                None => Err(varint_error_at(b, off + 1)),
                Some((c, n)) => if c < 0 {
                    Err(
                        BinaryErrorModel::InvalidValue {
                            field_id: 0,
                            type_tag: t,
                            reason: "Negative array count: "@ + signed_decimal(c),
                        },
                    )
                } else {
                    match p_strings(b, off, off + 1 + n, count_of(c)) {
                        Err(e) => Err(e),
                        Ok((xs, o)) => Ok((ValueModel::StrArray(xs), o)),
                    }
                },
            },
            TypeTag::NestedRecord => if !cfg.allow_nested {
                Err(BinaryErrorModel::NestedStructureNotSupported)
            } else {
                match p_record(b, off, d + 1, cfg) {
                    Err(e) => Err(e),
                    Ok((fs, o)) => Ok((ValueModel::Record(fs), o)),
                }
            },
            TypeTag::NestedArray => if !cfg.allow_nested {
                Err(BinaryErrorModel::NestedStructureNotSupported)
            } else {
                match p_array(b, off, d + 1, cfg) {
                    Err(e) => Err(e),
                    Ok((rs, o)) => Ok((ValueModel::RecordArray(rs), o)),
                }
            },
            _ => Err(BinaryErrorModel::InvalidTypeTag { tag: t }),
        }
    }
}

/// Reads the nested array that starts at `off`, at depth `d`.
pub open spec fn p_array(b: Seq<u8>, off: int, d: nat, cfg: NestedDecoderConfig) -> Result<
    (Seq<Seq<FieldModel>>, int),
    BinaryErrorModel,
>
    decreases depth_left(d, cfg.max_depth as nat), 4nat, 0nat,
{
    if d >= cfg.max_depth {
        Err(BinaryErrorModel::NestingDepthExceeded { depth: d, max: cfg.max_depth as nat })
    } else if off >= b.len() {
        Err(eof_at(1, b.len() - off))
    } else if b[off] != 7 {
        Err(BinaryErrorModel::InvalidTypeTag { tag: b[off] })
    } else {
        match varint_parse(b.subrange(off + 1, b.len() as int)) {
            None => Err(varint_error_at(b, off + 1)),
            Some((c, n)) => if c < 0 {
                Err(
                    BinaryErrorModel::InvalidNestedStructure {
                        reason: "Negative element count: "@ + signed_decimal(c),
                    },
                )
            } else {
                p_elems(b, off + 1 + n, count_of(c), d, cfg)
            },
        }
    }
}

/// Reads `k` records one after another from `off`, at depth `d`.
pub open spec fn p_elems(b: Seq<u8>, off: int, k: nat, d: nat, cfg: NestedDecoderConfig) -> Result<
    (Seq<Seq<FieldModel>>, int),
    BinaryErrorModel,
>
    decreases depth_left(d, cfg.max_depth as nat), 3nat, k,
{
    if k == 0 {
        Ok((Seq::empty(), off))
    } else {
        match p_record(b, off, d, cfg) {
            Err(e) => Err(e),
            Ok((fs, o)) => match p_elems(b, o, (k - 1) as nat, d, cfg) {
                Err(e) => Err(e),
                Ok((rest, e)) => Ok((seq![fs] + rest, e)),
            },
        }
    }
}

/// `acc` followed by the fields read, if they could be read.
pub open spec fn prepend_fields(acc: Seq<FieldModel>, r: Result<(Seq<FieldModel>, int), BinaryErrorModel>) -> Result<
    (Seq<FieldModel>, int),
    BinaryErrorModel,
> {
    match r {
        Ok((fs, e)) => Ok((acc + fs, e)),
        Err(x) => Err(x),
    }
}

/// `acc` followed by the strings read, if they could be read.
pub open spec fn prepend_strings(acc: Seq<Seq<char>>, r: Result<(Seq<Seq<char>>, int), BinaryErrorModel>) -> Result<
    (Seq<Seq<char>>, int),
    BinaryErrorModel,
> {
    match r {
        Ok((xs, e)) => Ok((acc + xs, e)),
        Err(x) => Err(x),
    }
}

/// `acc` followed by the records read, if they could be read.
pub open spec fn prepend_records(
    acc: Seq<Seq<FieldModel>>,
    r: Result<(Seq<Seq<FieldModel>>, int), BinaryErrorModel>,
) -> Result<(Seq<Seq<FieldModel>>, int), BinaryErrorModel> {
    match r {
        Ok((rs, e)) => Ok((acc + rs, e)),
        Err(x) => Err(x),
    }
}

/// Model of a decoded record and its end.
pub open spec fn record_result(r: Result<(LnmpRecord, usize), BinaryError>) -> Result<
    (Seq<FieldModel>, int),
    BinaryErrorModel,
> {
    match r {
        Ok((rec, e)) => Ok((rec@, e as int)),
        Err(x) => Err(x@),
    }
}

/// Model of a decoded value and its end.
pub open spec fn value_result(r: Result<(LnmpValue, usize), BinaryError>) -> Result<
    (ValueModel, int),
    BinaryErrorModel,
> {
    match r {
        Ok((v, e)) => Ok((v@, e as int)),
        Err(x) => Err(x@),
    }
}

/// Model of a decoded string and its end.
pub open spec fn string_result(r: Result<(String, usize), BinaryError>) -> Result<(Seq<char>, int), BinaryErrorModel> {
    match r {
        Ok((s, e)) => Ok((s@, e as int)),
        Err(x) => Err(x@),
    }
}

/// Model of a decoded array of records and its end.
pub open spec fn records_result(r: Result<(Vec<LnmpRecord>, usize), BinaryError>) -> Result<
    (Seq<Seq<FieldModel>>, int),
    BinaryErrorModel,
> {
    match r {
        Ok((rs, e)) => Ok((crate::record::records_model(rs@), e as int)),
        Err(x) => Err(x@),
    }
}

/// Decoder of nested records and arrays.
#[derive(Debug)]
pub struct BinaryNestedDecoder {
    /// Configuration.
    pub config: NestedDecoderConfig,
}

/// "Negative ...: N".
fn negative_message(prefix: &str, v: i64) -> (s: String)
    ensures
        s@ == prefix@ + signed_decimal(v as int),
{
    let mut s = string_of(prefix);
    push_signed_decimal(&mut s, v);
    s
}

impl BinaryNestedDecoder {
    /// A decoder with the default configuration.
    pub fn new() -> (d: Self)
        ensures
            d.config == NestedDecoderConfig::spec_default(),
    {
        BinaryNestedDecoder { config: NestedDecoderConfig::new() }
    }

    /// A decoder with `config`.
    pub fn with_config(config: NestedDecoderConfig) -> (d: Self)
        ensures
            d.config == config,
    {
        BinaryNestedDecoder { config }
    }

    /// Decodes the nested record at the start of `bytes`: the record and the
    /// number of bytes it takes.
    pub fn decode_nested_record(&self, bytes: &[u8]) -> (r: Result<(LnmpRecord, usize), BinaryError>)
        ensures
            record_result(r) == p_record(bytes@, 0, 0, self.config),
    {
        self.decode_record_at(bytes, 0, 0)
    }

    /// Decodes the nested array at the start of `bytes`: the records and the
    /// number of bytes they take.
    pub fn decode_nested_array(&self, bytes: &[u8]) -> (r: Result<(Vec<LnmpRecord>, usize), BinaryError>)
        ensures
            records_result(r) == p_array(bytes@, 0, 0, self.config),
    {
        self.decode_array_at(bytes, 0, 0)
    }

    /// Decodes the nested record at `off`, at depth `d`.
    fn decode_record_at(&self, bytes: &[u8], off: usize, d: usize) -> (r: Result<(LnmpRecord, usize), BinaryError>)
        requires
            off <= bytes@.len(),
        ensures
            record_result(r) == p_record(bytes@, off as int, d as nat, self.config),
            r matches Ok((_, e)) ==> off < e <= bytes@.len(),
        decreases depth_left(d as nat, self.config.max_depth as nat), 2nat, 0nat,
    {
        let n = bytes.len();
        if d >= self.config.max_depth {
            return Err(BinaryError::NestingDepthExceeded { depth: d, max: self.config.max_depth });
        }
        if off >= n {
            return Err(BinaryError::UnexpectedEof { expected: 1, found: n - off });
        }
        let tag = bytes[off];
        if tag != 0x06 {
            return Err(BinaryError::InvalidTypeTag { tag });
        }
        let rest = vstd::slice::slice_subrange(bytes, off + 1, n);
        let (count, used) = match varint::decode(rest) {
            Ok(p) => p,
            Err(e) => return Err(e),
        };
        if count < 0 {
            return Err(
                BinaryError::InvalidNestedStructure { reason: negative_message("Negative field count: ", count) },
            );
        }
        let k = count as usize;
        let ghost b = bytes@;
        let mut record = LnmpRecord::new();
        let mut pos = off + 1 + used;
        let mut i: usize = 0;
        assert(record@ + Seq::<FieldModel>::empty() =~= record@);
        assert(p_record(b, off as int, d as nat, self.config) == prepend_fields(
            record@,
            p_fields(b, pos as int, (k - i) as nat, d as nat, self.config),
        ));
        while i < k
            invariant
                b == bytes@,
                n == b.len(),
                k as nat == count_of(count as int),
                off + 1 <= pos <= b.len(),
                i <= k,
                d < self.config.max_depth,
                p_record(b, off as int, d as nat, self.config) == prepend_fields(
                    record@,
                    p_fields(b, pos as int, (k - i) as nat, d as nat, self.config),
                ),
            decreases k - i,
        {
            let tail_bytes = vstd::slice::slice_subrange(bytes, pos, n);
            let (f, m) = match varint::decode(tail_bytes) {
                Ok(p) => p,
                Err(e) => return Err(e),
            };
            if f < 0 || f > 65535 {
                let mut reason = string_of("FID out of range: ");
                push_signed_decimal(&mut reason, f);
                return Err(BinaryError::InvalidFID { fid: f as u16, reason });
            }
            let (value, end) = match self.decode_value_at(bytes, pos + m, d) {
                Ok(p) => p,
                Err(e) => return Err(e),
            };
            let ghost acc = record@;
            let field = LnmpField { fid: f as u16, value };
            record.add_field(field);
            proof {
                let fm = FieldModel { fid: f as u16, value: value@ };
                let tailr = p_fields(b, end as int, (k - i - 1) as nat, d as nat, self.config);
                assert(record@ == acc.push(fm));
                match tailr {
                    Ok((rs, e2)) => {
                        assert(acc + (seq![fm] + rs) =~= acc.push(fm) + rs);
                    },
                    Err(_) => {},
                }
            }
            pos = end;
            i = i + 1;
        }
        assert(record@ + Seq::<FieldModel>::empty() =~= record@);
        Ok((record, pos))
    }

    /// Decodes the nested array at `off`, at depth `d`.
    fn decode_array_at(&self, bytes: &[u8], off: usize, d: usize) -> (r: Result<(Vec<LnmpRecord>, usize), BinaryError>)
        requires
            off <= bytes@.len(),
        ensures
            records_result(r) == p_array(bytes@, off as int, d as nat, self.config),
            r matches Ok((_, e)) ==> off < e <= bytes@.len(),
        decreases depth_left(d as nat, self.config.max_depth as nat), 4nat, 0nat,
    {
        let n = bytes.len();
        if d >= self.config.max_depth {
            return Err(BinaryError::NestingDepthExceeded { depth: d, max: self.config.max_depth });
        }
        if off >= n {
            return Err(BinaryError::UnexpectedEof { expected: 1, found: n - off });
        }
        let tag = bytes[off];
        if tag != 0x07 {
            return Err(BinaryError::InvalidTypeTag { tag });
        }
        let rest = vstd::slice::slice_subrange(bytes, off + 1, n);
        let (count, used) = match varint::decode(rest) {
            Ok(p) => p,
            Err(e) => return Err(e),
        };
        if count < 0 {
            return Err(
                BinaryError::InvalidNestedStructure { reason: negative_message("Negative element count: ", count) },
            );
        }
        let k = count as usize;
        let ghost b = bytes@;
        let mut records: Vec<LnmpRecord> = Vec::new();
        let mut pos = off + 1 + used;
        let mut i: usize = 0;
        assert(crate::record::records_model(records@) =~= Seq::<Seq<FieldModel>>::empty());
        assert(Seq::<Seq<FieldModel>>::empty() + Seq::<Seq<FieldModel>>::empty() =~= Seq::<Seq<FieldModel>>::empty());
        while i < k
            invariant
                b == bytes@,
                n == b.len(),
                k as nat == count_of(count as int),
                off + 1 <= pos <= b.len(),
                i <= k,
                d < self.config.max_depth,
                p_array(b, off as int, d as nat, self.config) == prepend_records(
                    crate::record::records_model(records@),
                    p_elems(b, pos as int, (k - i) as nat, d as nat, self.config),
                ),
            decreases k - i,
        {
            let (record, end) = match self.decode_record_at(bytes, pos, d) {
                Ok(p) => p,
                Err(e) => return Err(e),
            };
            let ghost acc = crate::record::records_model(records@);
            let ghost rm = record@;
            let ghost before = records@;
            records.push(record);
            proof {
                assert(records@.subrange(0, records@.len() - 1) =~= before);
                assert(crate::record::records_model(records@) == acc.push(rm));
                let tailr = p_elems(b, end as int, (k - i - 1) as nat, d as nat, self.config);
                match tailr {
                    Ok((rs, e2)) => {
                        assert(acc + (seq![rm] + rs) =~= acc.push(rm) + rs);
                    },
                    Err(_) => {},
                }
            }
            pos = end;
            i = i + 1;
        }
        assert(crate::record::records_model(records@) + Seq::<Seq<FieldModel>>::empty()
            =~= crate::record::records_model(records@));
        Ok((records, pos))
    }

    /// Reads the length-prefixed string at `pos` of the value that starts at
    /// `start`.
    fn read_string_at(bytes: &[u8], start: usize, pos: usize, tag: u8, neg: &str) -> (r: Result<(String, usize), BinaryError>)
        requires
            start < pos <= bytes@.len(),
        ensures
            string_result(r) == p_string(bytes@, start as int, pos as int, tag, neg@),
            r matches Ok((_, e)) ==> pos < e <= bytes@.len(),
    {
        let n = bytes.len();
        let rest = vstd::slice::slice_subrange(bytes, pos, n);
        let (length, used) = match varint::decode(rest) {
            Ok(p) => p,
            Err(e) => return Err(e),
        };
        if length < 0 {
            return Err(BinaryError::InvalidValue { field_id: 0, type_tag: tag, reason: negative_message(neg, length) });
        }
        let lu = length as usize;
        let rel = pos + used - start;
        if lu > (n - start) - rel {
            return Err(BinaryError::UnexpectedEof { expected: rel.wrapping_add(lu), found: n - start });
        }
        let from = pos + used;
        match utf8_string(bytes, from, from + lu) {
            Some(s) => {
                proof {
                    lemma_utf8_roundtrip(s@);
                }
                Ok((s, from + lu))
            },
            None => Err(BinaryError::InvalidUtf8 { field_id: 0 }),
        }
    }

    /// Reads `k` length-prefixed strings one after another from `pos0`, in
    /// the value that starts at `start`.
    fn read_strings_at(bytes: &[u8], start: usize, pos0: usize, k: usize) -> (r: Result<(Vec<String>, usize), BinaryError>)
        requires
            start < pos0 <= bytes@.len(),
        ensures
            match r {
                Ok((v, e)) => p_strings(bytes@, start as int, pos0 as int, k as nat) == Ok::<
                    (Seq<Seq<char>>, int),
                    BinaryErrorModel,
                >((crate::record::strings_model(v@), e as int)) && pos0 <= e <= bytes@.len(),
                Err(x) => p_strings(bytes@, start as int, pos0 as int, k as nat) == Err::<
                    (Seq<Seq<char>>, int),
                    BinaryErrorModel,
                >(x@),
            },
    {
        let ghost b = bytes@;
        let mut array: Vec<String> = Vec::new();
        let mut pos = pos0;
        let mut i: usize = 0;
        assert(crate::record::strings_model(array@) =~= Seq::<Seq<char>>::empty());
        assert(Seq::<Seq<char>>::empty() + Seq::<Seq<char>>::empty() =~= Seq::<Seq<char>>::empty());
        while i < k
            invariant
                b == bytes@,
                start < pos0 <= pos <= b.len(),
                i <= k,
                p_strings(b, start as int, pos0 as int, k as nat) == prepend_strings(
                    crate::record::strings_model(array@),
                    p_strings(b, start as int, pos as int, (k - i) as nat),
                ),
            decreases k - i,
        {
            let (s, end) = match Self::read_string_at(bytes, start, pos, 5, "Negative string length in array: ") {
                Ok(p) => p,
                Err(e) => return Err(e),
            };
            let ghost acc = crate::record::strings_model(array@);
            let ghost sm = s@;
            array.push(s);
            proof {
                assert(crate::record::strings_model(array@) =~= acc.push(sm));
                let tailr = p_strings(b, start as int, end as int, (k - i - 1) as nat);
                match tailr {
                    Ok((xs, e2)) => {
                        assert(acc + (seq![sm] + xs) =~= acc.push(sm) + xs);
                    },
                    Err(_) => {},
                }
            }
            pos = end;
            i = i + 1;
        }
        assert(crate::record::strings_model(array@) + Seq::<Seq<char>>::empty()
            =~= crate::record::strings_model(array@));
        Ok((array, pos))
    }

    /// Decodes the tagged value at `off`, at depth `d`.
    fn decode_value_at(&self, bytes: &[u8], off: usize, d: usize) -> (r: Result<(LnmpValue, usize), BinaryError>)
        requires
            off <= bytes@.len(),
        ensures
            value_result(r) == p_value(bytes@, off as int, d as nat, self.config),
            r matches Ok((_, e)) ==> off < e <= bytes@.len(),
        decreases depth_left(d as nat, self.config.max_depth as nat), 0nat, 0nat,
    {
        let n = bytes.len();
        if d >= self.config.max_depth {
            return Err(BinaryError::NestingDepthExceeded { depth: d, max: self.config.max_depth });
        }
        if off >= n {
            return Err(BinaryError::UnexpectedEof { expected: 1, found: n - off });
        }
        let t = bytes[off];
        let tag = match TypeTag::from_u8(t) {
            Ok(tag) => tag,
            Err(e) => return Err(e),
        };
        assert(tag_of(t) == tag);
        let ghost b = bytes@;
        match tag {
            TypeTag::Int => {
                let rest = vstd::slice::slice_subrange(bytes, off + 1, n);
                let (v, used) = match varint::decode(rest) {
                    Ok(p) => p,
                    Err(e) => return Err(e),
                };
                Ok((LnmpValue::Int(v), off + 1 + used))
            },
            TypeTag::Float => {
                if n - off < 9 {
                    return Err(BinaryError::UnexpectedEof { expected: 9, found: n - off });
                }
                let bits = read_le64(bytes, off + 1);
                Ok((LnmpValue::Float(bits), off + 9))
            },
            TypeTag::Bool => {
                if n - off < 2 {
                    return Err(BinaryError::UnexpectedEof { expected: 2, found: n - off });
                }
                Ok((LnmpValue::Bool(bytes[off + 1] != 0), off + 2))
            },
            TypeTag::String => {
                let (s, end) = match Self::read_string_at(bytes, off, off + 1, t, "Negative string length: ") {
                    Ok(p) => p,
                    Err(e) => return Err(e),
                };
                Ok((LnmpValue::String(s), end))
            },
            TypeTag::StringArray => {
                let rest = vstd::slice::slice_subrange(bytes, off + 1, n);
                let (count, used) = match varint::decode(rest) {
                    Ok(p) => p,
                    Err(e) => return Err(e),
                };
                if count < 0 {
                    return Err(
                        BinaryError::InvalidValue {
                            field_id: 0,
                            type_tag: t,
                            reason: negative_message("Negative array count: ", count),
                        },
                    );
                }
                let (array, pos) = match Self::read_strings_at(bytes, off, off + 1 + used, count as usize) {
                    Ok(p) => p,
                    Err(e) => return Err(e),
                };
                Ok((LnmpValue::StringArray(array), pos))
            },
            TypeTag::NestedRecord => {
                if !self.config.allow_nested {
                    return Err(BinaryError::NestedStructureNotSupported);
                }
                let (record, end) = match self.decode_record_at(bytes, off, d + 1) {
                    Ok(p) => p,
                    Err(e) => return Err(e),
                };
                Ok((LnmpValue::NestedRecord(Box::new(record)), end))
            },
            TypeTag::NestedArray => {
                if !self.config.allow_nested {
                    return Err(BinaryError::NestedStructureNotSupported);
                }
                let (records, end) = match self.decode_array_at(bytes, off, d + 1) {
                    Ok(p) => p,
                    Err(e) => return Err(e),
                };
                Ok((LnmpValue::NestedArray(records), end))
            },
            _ => Err(BinaryError::InvalidTypeTag { tag: t }),
        }
    }
}

impl Default for BinaryNestedDecoder {
    fn default() -> (d: Self)
        ensures
            d.config == NestedDecoderConfig::spec_default(),
    {
        Self::new()
    }
}

/// Reading back a written string gives the string.
proof fn lemma_read_string(pre: Seq<u8>, x: Seq<char>, rest: Seq<u8>, start: int, tag: u8, neg: Seq<char>)
    requires
        0 <= start <= pre.len(),
        count_fits(encode_utf8(x).len()),
        (pre + n_string_wire(x) + rest).len() <= usize::MAX,
    ensures
        p_string(pre + n_string_wire(x) + rest, start, pre.len() as int, tag, neg) == Ok::<
            (Seq<char>, int),
            BinaryErrorModel,
        >((x, pre.len() + n_string_wire(x).len() as int)),
{
    let u = encode_utf8(x);
    let l = u.len() as i64;
    let b = pre + n_string_wire(x) + rest;
    assert(b.subrange(pre.len() as int, b.len() as int) =~= sleb128(l as int) + (u + rest));
    lemma_varint_roundtrip(l, u + rest);
    let n = sleb128(l as int).len();
    assert(b.subrange(pre.len() + n as int, pre.len() + n + u.len() as int) =~= u);
    lemma_utf8_roundtrip(x);
}

/// Reading back written strings gives the strings.
proof fn lemma_read_strings(pre: Seq<u8>, a: Seq<Seq<char>>, rest: Seq<u8>, start: int)
    requires
        0 <= start <= pre.len(),
        forall|i: int| 0 <= i < a.len() ==> count_fits(encode_utf8(#[trigger] a[i]).len()),
        (pre + n_strings_wire(a) + rest).len() <= usize::MAX,
    ensures
        p_strings(pre + n_strings_wire(a) + rest, start, pre.len() as int, a.len()) == Ok::<
            (Seq<Seq<char>>, int),
            BinaryErrorModel,
        >((a, pre.len() + n_strings_wire(a).len() as int)),
    decreases a.len(),
{
    if a.len() > 0 {
        let x = a[0];
        let tl = a.subrange(1, a.len() as int);
        let b = pre + n_strings_wire(a) + rest;
        assert(b =~= pre + n_string_wire(x) + (n_strings_wire(tl) + rest));
        lemma_read_string(pre, x, n_strings_wire(tl) + rest, start, 5, "Negative string length in array: "@);
        assert(b =~= (pre + n_string_wire(x)) + n_strings_wire(tl) + rest);
        assert forall|i: int| 0 <= i < tl.len() implies count_fits(encode_utf8(#[trigger] tl[i]).len()) by {
            assert(tl[i] == a[i + 1]);
        }
        lemma_read_strings(pre + n_string_wire(x), tl, rest, start);
        assert(seq![x] + tl =~= a);
        assert(n_strings_wire(a) == n_string_wire(x) + n_strings_wire(tl));
        let p1 = pre.len() + n_string_wire(x).len() as int;
        assert(p_string(b, start, pre.len() as int, 5, "Negative string length in array: "@) == Ok::<
            (Seq<char>, int),
            BinaryErrorModel,
        >((x, p1)));
        assert(p_strings(b, start, p1, tl.len()) == Ok::<(Seq<Seq<char>>, int), BinaryErrorModel>(
            (tl, p1 + n_strings_wire(tl).len()),
        ));
        assert(((a.len() - 1) as nat) == tl.len());
    } else {
        assert(n_strings_wire(a) =~= Seq::<u8>::empty());
        assert(a =~= Seq::<Seq<char>>::empty());
    }
}

/// Reading back a written value gives it back, with its records in
/// identifier order.
proof fn lemma_read_value(
    v: ValueModel,
    e: nat,
    d: nat,
    ce: NestedEncoderConfig,
    cd: NestedDecoderConfig,
    pre: Seq<u8>,
    rest: Seq<u8>,
)
    requires
        enc_value(v, e, ce) is Ok,
        v_fits(v),
        d < cd.max_depth,
        d + 1 <= e,
        ce.max_depth <= cd.max_depth,
        cd.allow_nested,
        (pre + enc_value(v, e, ce)->Ok_0 + rest).len() <= usize::MAX,
    ensures
        p_value(pre + enc_value(v, e, ce)->Ok_0 + rest, pre.len() as int, d, cd) == Ok::<
            (ValueModel, int),
            BinaryErrorModel,
        >((canon_value(v), pre.len() + enc_value(v, e, ce)->Ok_0.len() as int)),
    decreases vsize(v), 2nat,
{
    match v {
        ValueModel::Record(fs) => {
            lemma_read_record(fs, e, d + 1, ce, cd, pre, rest);
        },
        ValueModel::RecordArray(rs) => {
            lemma_read_array(rs, e, d + 1, ce, cd, pre, rest);
        },
        _ => {
            lemma_read_flat(v, d, cd, pre, rest);
        },
    }
}

/// Reading back a written value that holds no record gives it back.
#[verifier::rlimit(50)]
proof fn lemma_read_flat(v: ValueModel, d: nat, cd: NestedDecoderConfig, pre: Seq<u8>, rest: Seq<u8>)
    requires
        !(v is Record || v is RecordArray),
        v_fits(v),
        d < cd.max_depth,
        (pre + n_flat_wire(v) + rest).len() <= usize::MAX,
    ensures
        p_value(pre + n_flat_wire(v) + rest, pre.len() as int, d, cd) == Ok::<(ValueModel, int), BinaryErrorModel>(
            (canon_value(v), pre.len() + n_flat_wire(v).len() as int),
        ),
{
    let w = n_flat_wire(v);
    let b = pre + w + rest;
    let off = pre.len() as int;
    match v {
        ValueModel::Int(i) => {
            assert(b.subrange(off + 1, b.len() as int) =~= sleb128(i as int) + rest);
            lemma_varint_roundtrip(i, rest);
        },
        ValueModel::Float(f) => {
            assert(b.subrange(off + 1, off + 9) =~= le64(f));
            lemma_le64_inverse(f);
        },
        ValueModel::Bool(x) => {},
        ValueModel::Str(x) => {
            assert(b =~= (pre + seq![4u8]) + n_string_wire(x) + rest);
            lemma_read_string(pre + seq![4u8], x, rest, off, 4, "Negative string length: "@);
        },
        ValueModel::StrArray(a) => {
            let c = (a.len() as i64) as int;
            let tail_w = n_strings_wire(a) + rest;
            assert(b.subrange(off + 1, b.len() as int) =~= sleb128(c) + tail_w);
            lemma_varint_roundtrip(a.len() as i64, tail_w);
            let pre2 = pre + seq![5u8] + sleb128(c);
            assert(b =~= pre2 + n_strings_wire(a) + rest);
            lemma_read_strings(pre2, a, rest, off);
        },
        _ => {},
    }
}

/// Reading back a written record gives its fields in identifier order.
proof fn lemma_read_record(
    fs: Seq<FieldModel>,
    e: nat,
    d: nat,
    ce: NestedEncoderConfig,
    cd: NestedDecoderConfig,
    pre: Seq<u8>,
    rest: Seq<u8>,
)
    requires
        enc_record(fs, e, ce) is Ok,
        r_fits(fs),
        d <= e,
        ce.max_depth <= cd.max_depth,
        cd.allow_nested,
        (pre + enc_record(fs, e, ce)->Ok_0 + rest).len() <= usize::MAX,
    ensures
        p_record(pre + enc_record(fs, e, ce)->Ok_0 + rest, pre.len() as int, d, cd) == Ok::<
            (Seq<FieldModel>, int),
            BinaryErrorModel,
        >((canon_record(fs), pre.len() + enc_record(fs, e, ce)->Ok_0.len() as int)),
    decreases fsize(fs) + 1, 1nat,
{
    lemma_fsize_sort(fs);
    let w = enc_record(fs, e, ce)->Ok_0;
    let b = pre + w + rest;
    let off = pre.len() as int;
    let sorted = sort_by_fid(fs);
    let c = (fs.len() as i64) as int;
    let hdr = seq![6u8] + sleb128(c);
    assert(w == enc_fields(hdr, sorted, e, ce)->Ok_0);
    lemma_enc_fields_prefix(hdr, sorted, e, ce);
    assert(w =~= hdr + w.subrange(hdr.len() as int, w.len() as int));
    let body = w.subrange(hdr.len() as int, w.len() as int);
    assert(b.subrange(off + 1, b.len() as int) =~= sleb128(c) + (body + rest));
    lemma_varint_roundtrip(fs.len() as i64, body + rest);
    crate::record::lemma_sort_len(fs);
    lemma_read_fields(hdr, sorted, e, d, ce, cd, pre, rest);
}

/// Reading back written fields gives them back, each value made canonical.
#[verifier::rlimit(50)]
proof fn lemma_read_fields(
    acc: Seq<u8>,
    fs: Seq<FieldModel>,
    e: nat,
    d: nat,
    ce: NestedEncoderConfig,
    cd: NestedDecoderConfig,
    pre: Seq<u8>,
    rest: Seq<u8>,
)
    requires
        enc_fields(acc, fs, e, ce) is Ok,
        fs_fit(fs),
        d <= e,
        e < ce.max_depth,
        ce.max_depth <= cd.max_depth,
        cd.allow_nested,
        (pre + enc_fields(acc, fs, e, ce)->Ok_0 + rest).len() <= usize::MAX,
    ensures
        p_fields(
            pre + enc_fields(acc, fs, e, ce)->Ok_0 + rest,
            pre.len() + acc.len() as int,
            fs.len(),
            d,
            cd,
        ) == Ok::<(Seq<FieldModel>, int), BinaryErrorModel>(
            (canon_fields(fs), pre.len() + enc_fields(acc, fs, e, ce)->Ok_0.len() as int),
        ),
    decreases fsize(fs), 0nat,
{
    let w = enc_fields(acc, fs, e, ce)->Ok_0;
    let b = pre + w + rest;
    if fs.len() == 0 {
        assert(canon_fields(fs) =~= Seq::<FieldModel>::empty());
    } else {
        let f0 = fs[0];
        let tl = fs.subrange(1, fs.len() as int);
        let vb = enc_value(f0.value, e + 1, ce)->Ok_0;
        let fidb = sleb128(f0.fid as int);
        let nb = acc + fidb + vb;
        lemma_enc_fields_prefix(nb, tl, e, ce);
        let w2 = w.subrange(nb.len() as int, w.len() as int);
        assert(w =~= nb + w2);
        let off0 = pre.len() + acc.len() as int;
        assert(b.subrange(off0, b.len() as int) =~= fidb + (vb + w2 + rest));
        lemma_varint_roundtrip(f0.fid as i64, vb + w2 + rest);
        assert(b =~= (pre + acc + fidb) + vb + (w2 + rest));
        lemma_read_value(f0.value, e + 1, d, ce, cd, pre + acc + fidb, w2 + rest);
        assert(b =~= (pre + nb) + w2 + rest);
        assert(enc_fields(nb, tl, e, ce)->Ok_0 == w);
        assert(b =~= pre + enc_fields(nb, tl, e, ce)->Ok_0 + rest);
        lemma_read_fields(nb, tl, e, d, ce, cd, pre, rest);
        assert(seq![FieldModel { fid: f0.fid, value: canon_value(f0.value) }] + canon_fields(tl)
            == canon_fields(fs));
    }
}

/// Reading back a written array gives its records, each made canonical.
#[verifier::rlimit(40)]
#[verifier::spinoff_prover]
proof fn lemma_read_array(
    rs: Seq<Seq<FieldModel>>,
    e: nat,
    d: nat,
    ce: NestedEncoderConfig,
    cd: NestedDecoderConfig,
    pre: Seq<u8>,
    rest: Seq<u8>,
)
    requires
        enc_array(rs, e, ce) is Ok,
        count_fits(rs.len()),
        rs_fit(rs),
        d <= e,
        ce.max_depth <= cd.max_depth,
        cd.allow_nested,
        (pre + enc_array(rs, e, ce)->Ok_0 + rest).len() <= usize::MAX,
    ensures
        p_array(pre + enc_array(rs, e, ce)->Ok_0 + rest, pre.len() as int, d, cd) == Ok::<
            (Seq<Seq<FieldModel>>, int),
            BinaryErrorModel,
        >((canon_records(rs), pre.len() + enc_array(rs, e, ce)->Ok_0.len() as int)),
    decreases rsize(rs) + 1, 1nat,
{
    let w = enc_array(rs, e, ce)->Ok_0;
    let b = pre + w + rest;
    let off = pre.len() as int;
    let c = (rs.len() as i64) as int;
    let hdr = seq![7u8] + sleb128(c);
    lemma_enc_elems_prefix(hdr, rs, e, ce);
    assert(w =~= hdr + w.subrange(hdr.len() as int, w.len() as int));
    let body = w.subrange(hdr.len() as int, w.len() as int);
    assert(b.subrange(off + 1, b.len() as int) =~= sleb128(c) + (body + rest));
    lemma_varint_roundtrip(rs.len() as i64, body + rest);
    lemma_read_elems(hdr, rs, e, d, ce, cd, pre, rest);
}

/// Reading back written records gives them back, each made canonical.
#[verifier::rlimit(50)]
proof fn lemma_read_elems(
    acc: Seq<u8>,
    rs: Seq<Seq<FieldModel>>,
    e: nat,
    d: nat,
    ce: NestedEncoderConfig,
    cd: NestedDecoderConfig,
    pre: Seq<u8>,
    rest: Seq<u8>,
)
    requires
        enc_elems(acc, rs, e, ce) is Ok,
        rs_fit(rs),
        d <= e,
        e < ce.max_depth,
        ce.max_depth <= cd.max_depth,
        cd.allow_nested,
        (pre + enc_elems(acc, rs, e, ce)->Ok_0 + rest).len() <= usize::MAX,
    ensures
        p_elems(
            pre + enc_elems(acc, rs, e, ce)->Ok_0 + rest,
            pre.len() + acc.len() as int,
            rs.len(),
            d,
            cd,
        ) == Ok::<(Seq<Seq<FieldModel>>, int), BinaryErrorModel>(
            (canon_records(rs), pre.len() + enc_elems(acc, rs, e, ce)->Ok_0.len() as int),
        ),
    decreases rsize(rs), 0nat,
{
    let w = enc_elems(acc, rs, e, ce)->Ok_0;
    let b = pre + w + rest;
    if rs.len() == 0 {
        assert(canon_records(rs) =~= Seq::<Seq<FieldModel>>::empty());
    } else {
        let r0 = rs[0];
        let tl = rs.subrange(1, rs.len() as int);
        let rb = enc_record(r0, e + 1, ce)->Ok_0;
        let nb = acc + rb;
        lemma_enc_elems_prefix(nb, tl, e, ce);
        let w2 = w.subrange(nb.len() as int, w.len() as int);
        assert(w =~= nb + w2);
        assert(b =~= (pre + acc) + rb + (w2 + rest));
        lemma_read_record(r0, e + 1, d, ce, cd, pre + acc, w2 + rest);
        assert(b =~= pre + enc_elems(nb, tl, e, ce)->Ok_0 + rest);
        lemma_read_elems(nb, tl, e, d, ce, cd, pre, rest);
        assert(seq![canon_record(r0)] + canon_records(tl) == canon_records(rs));
    }
}

/// What the nested decoder reads is what the nested encoder wrote: a record
/// that encodes comes back with the fields of every record in identifier
/// order, and the decoder takes exactly the encoded bytes, whatever follows
/// them. (The decoder must accept nesting and at least the encoder's depth;
/// every length and count must fit a varint and a `usize`.)
pub proof fn lemma_nested_record_roundtrip(
    fs: Seq<FieldModel>,
    ce: NestedEncoderConfig,
    cd: NestedDecoderConfig,
    rest: Seq<u8>,
)
    requires
        enc_record(fs, 0, ce) is Ok,
        r_fits(fs),
        ce.max_depth <= cd.max_depth,
        cd.allow_nested,
        (enc_record(fs, 0, ce)->Ok_0 + rest).len() <= usize::MAX,
    ensures
        p_record(enc_record(fs, 0, ce)->Ok_0 + rest, 0, 0, cd) == Ok::<
            (Seq<FieldModel>, int),
            BinaryErrorModel,
        >((canon_record(fs), enc_record(fs, 0, ce)->Ok_0.len() as int)),
{
    let w = enc_record(fs, 0, ce)->Ok_0;
    assert(Seq::<u8>::empty() + w + rest =~= w + rest);
    lemma_read_record(fs, 0, 0, ce, cd, Seq::empty(), rest);
}

/// What the nested decoder reads is what the nested encoder wrote, for an
/// array of records (with the same conditions as for a record).
pub proof fn lemma_nested_array_roundtrip(
    rs: Seq<Seq<FieldModel>>,
    ce: NestedEncoderConfig,
    cd: NestedDecoderConfig,
    rest: Seq<u8>,
)
    requires
        enc_array(rs, 0, ce) is Ok,
        count_fits(rs.len()),
        rs_fit(rs),
        ce.max_depth <= cd.max_depth,
        cd.allow_nested,
        (enc_array(rs, 0, ce)->Ok_0 + rest).len() <= usize::MAX,
    ensures
        p_array(enc_array(rs, 0, ce)->Ok_0 + rest, 0, 0, cd) == Ok::<
            (Seq<Seq<FieldModel>>, int),
            BinaryErrorModel,
        >((canon_records(rs), enc_array(rs, 0, ce)->Ok_0.len() as int)),
{
    let w = enc_array(rs, 0, ce)->Ok_0;
    assert(Seq::<u8>::empty() + w + rest =~= w + rest);
    lemma_read_array(rs, 0, 0, ce, cd, Seq::empty(), rest);
}

} // verus!
