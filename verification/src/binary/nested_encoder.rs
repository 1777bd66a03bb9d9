//! Encoding of nested records and arrays (v0.5).
//!
//! Records are written with their fields in identifier order (a stable sort,
//! applied at every level), after their tag (0x06) and field count; arrays
//! after their tag (0x07) and element count. Depth and, optionally, the size
//! of each record are bounded by the configuration.

use vstd::prelude::*;
use vstd::utf8::encode_utf8;
use super::error::{BinaryError, BinaryErrorModel};
use super::varint::{self, sleb128};
use super::wire::{le64, append_bytes, push_le64, string_bytes};
use crate::record::{
    LnmpField, LnmpRecord, LnmpValue, FieldModel, ValueModel, fields_model, records_model,
    sort_by_fid, insert_by_fid, lemma_fields_model, lemma_records_model,
};

verus! {

/// Configuration of the nested encoder.
#[derive(Debug, Clone, Copy, PartialEq, Eq, Structural)]
pub struct NestedEncoderConfig {
    /// Deepest nesting allowed.
    pub max_depth: usize,
    /// Largest encoded record, in bytes (unlimited when absent).
    pub max_record_size: Option<usize>,
    /// Whether canonical ordering is validated.
    pub validate_canonical: bool,
}

impl NestedEncoderConfig {
    /// The default configuration: depth 32, no size limit, no validation.
    pub open spec fn spec_default() -> NestedEncoderConfig {
        NestedEncoderConfig { max_depth: 32, max_record_size: None, validate_canonical: false }
    }

    /// The default configuration: depth 32, no size limit, no validation.
    pub fn new() -> (c: Self)
        ensures
            c == Self::spec_default(),
    {
        NestedEncoderConfig { max_depth: 32, max_record_size: None, validate_canonical: false }
    }

    /// Sets the deepest nesting allowed.
    pub fn with_max_depth(self, max_depth: usize) -> (c: Self)
        ensures
            c == (NestedEncoderConfig { max_depth, ..self }),
    {
        NestedEncoderConfig { max_depth, ..self }
    }

    /// Sets the largest encoded record.
    pub fn with_max_record_size(self, max_size: Option<usize>) -> (c: Self)
        ensures
            c == (NestedEncoderConfig { max_record_size: max_size, ..self }),
    {
        NestedEncoderConfig { max_record_size: max_size, ..self }
    }

    /// Sets whether canonical ordering is validated.
    pub fn with_validate_canonical(self, validate: bool) -> (c: Self)
        ensures
            c == (NestedEncoderConfig { validate_canonical: validate, ..self }),
    {
        NestedEncoderConfig { validate_canonical: validate, ..self }
    }
}

impl Default for NestedEncoderConfig {
    fn default() -> (c: Self)
        ensures
            c == Self::spec_default(),
    {
        Self::new()
    }
}

/// Number of nodes of a value.
pub open spec fn vsize(v: ValueModel) -> nat
    decreases v, 1int,
{
    match v {
        ValueModel::Record(fs) => fsize(fs) + 1,
        ValueModel::RecordArray(rs) => rsize(rs) + 1,
        _ => 1,
    }
}

/// Number of nodes of a list of fields.
pub open spec fn fsize(fs: Seq<FieldModel>) -> nat
    decreases fs, 0int,
{
    if fs.len() == 0 {
        0
    } else {
        vsize(fs[0].value) + 1 + fsize(fs.subrange(1, fs.len() as int))
    }
}

/// Number of nodes of a list of records.
pub open spec fn rsize(rs: Seq<Seq<FieldModel>>) -> nat
    decreases rs, 0int,
{
    if rs.len() == 0 {
        0
    } else {
        fsize(rs[0]) + 2 + rsize(rs.subrange(1, rs.len() as int))
    }
}

/// The size of fields with one more at the end.
pub proof fn lemma_fsize_push(t: Seq<FieldModel>, x: FieldModel)
    ensures
        fsize(t.push(x)) == fsize(t) + vsize(x.value) + 1,
    decreases t.len(),
{
    if t.len() > 0 {
        assert(t.push(x).subrange(1, t.len() + 1int) =~= t.subrange(1, t.len() as int).push(x));
        lemma_fsize_push(t.subrange(1, t.len() as int), x);
        assert(t.push(x)[0] == t[0]);
        assert(fsize(t.push(x)) == vsize(t[0].value) + 1 + fsize(t.subrange(1, t.len() as int).push(x)));
    } else {
        assert(t.push(x).subrange(1, 1) =~= Seq::<FieldModel>::empty());
        assert(t.push(x)[0] == x);
        assert(fsize(t.push(x)) == vsize(x.value) + 1 + fsize(Seq::<FieldModel>::empty()));
    }
}

/// Sorting fields keeps their size.
pub proof fn lemma_fsize_sort(fs: Seq<FieldModel>)
    ensures
        fsize(sort_by_fid(fs)) == fsize(fs),
    decreases fs.len(),
{
    if fs.len() > 0 {
        let init = fs.drop_last();
        lemma_fsize_sort(init);
        lemma_fsize_insert(sort_by_fid(init), fs.last());
        assert(fs =~= init.push(fs.last()));
        lemma_fsize_push(init, fs.last());
    }
}

/// Inserting a field adds its size.
proof fn lemma_fsize_insert(t: Seq<FieldModel>, x: FieldModel)
    ensures
        fsize(insert_by_fid(t, x)) == fsize(t) + vsize(x.value) + 1,
    decreases t.len(),
{
    if t.len() == 0 || t.last().fid <= x.fid {
        lemma_fsize_push(t, x);
    } else {
        let init = t.drop_last();
        lemma_fsize_insert(init, x);
        lemma_fsize_push(insert_by_fid(init, x), t.last());
        assert(t =~= init.push(t.last()));
        lemma_fsize_push(init, t.last());
    }
}

/// Each field value is smaller than its list.
pub proof fn lemma_fsize_member(fs: Seq<FieldModel>, i: int)
    requires
        0 <= i < fs.len(),
    ensures
        vsize(fs[i].value) < fsize(fs),
    decreases fs.len(),
{
    if i > 0 {
        lemma_fsize_member(fs.subrange(1, fs.len() as int), i - 1);
    }
}

/// Each record is smaller than its list.
pub proof fn lemma_rsize_member(rs: Seq<Seq<FieldModel>>, i: int)
    requires
        0 <= i < rs.len(),
    ensures
        fsize(rs[i]) + 1 < rsize(rs),
    decreases rs.len(),
{
    if i > 0 {
        lemma_rsize_member(rs.subrange(1, rs.len() as int), i - 1);
    }
}

/// Wire form of a string: its UTF-8 length as a varint, then the bytes.
pub open spec fn n_string_wire(s: Seq<char>) -> Seq<u8> {
    sleb128((encode_utf8(s).len() as i64) as int) + encode_utf8(s)
}

/// Wire forms of strings, one after another.
pub open spec fn n_strings_wire(a: Seq<Seq<char>>) -> Seq<u8>
    decreases a.len(),
{
    if a.len() == 0 {
        Seq::empty()
    } else {
        n_string_wire(a[0]) + n_strings_wire(a.subrange(1, a.len() as int))
    }
}

/// Wire form of a value that holds no record: its tag, then its payload.
pub open spec fn n_flat_wire(v: ValueModel) -> Seq<u8> {
    match v {
        ValueModel::Int(i) => seq![1u8] + sleb128(i as int),
        ValueModel::Float(f) => seq![2u8] + le64(f),
        ValueModel::Bool(b) => seq![3u8, if b { 1u8 } else { 0u8 }],
        ValueModel::Str(s) => seq![4u8] + n_string_wire(s),
        ValueModel::StrArray(a) => seq![5u8] + sleb128((a.len() as i64) as int) + n_strings_wire(a),
        _ => Seq::empty(),
    }
}

/// `bytes` is over the configured size limit.
pub open spec fn over_limit(bytes: Seq<u8>, cfg: NestedEncoderConfig) -> bool {
    cfg.max_record_size matches Some(m) && bytes.len() > m
}

/// Encoding of a value at depth `d`.
pub open spec fn enc_value(v: ValueModel, d: nat, cfg: NestedEncoderConfig) -> Result<Seq<u8>, BinaryErrorModel>
    decreases vsize(v), 2nat,
{
    match v {
        ValueModel::Record(fs) => if d >= cfg.max_depth {
            Err(BinaryErrorModel::NestingDepthExceeded { depth: d, max: cfg.max_depth as nat })
        } else {
            enc_record(fs, d, cfg)
        },
        ValueModel::RecordArray(rs) => if d >= cfg.max_depth {
            Err(BinaryErrorModel::NestingDepthExceeded { depth: d, max: cfg.max_depth as nat })
        } else {
            enc_array(rs, d, cfg)
        },
        _ => Ok(n_flat_wire(v)),
    }
}

/// Encoding of a record at depth `d`: tag, field count, then the fields in
/// identifier order.
pub open spec fn enc_record(fs: Seq<FieldModel>, d: nat, cfg: NestedEncoderConfig) -> Result<Seq<u8>, BinaryErrorModel>
    decreases fsize(fs) + 1, 1nat,
{
    if d >= cfg.max_depth {
        Err(BinaryErrorModel::NestingDepthExceeded { depth: d, max: cfg.max_depth as nat })
    } else {
        proof {
            lemma_fsize_sort(fs);
        }
        enc_fields(seq![6u8] + sleb128((fs.len() as i64) as int), sort_by_fid(fs), d, cfg)
    }
}

/// `acc` followed by the fields of a record at depth `d`, the size limit
/// checked after each.
pub open spec fn enc_fields(acc: Seq<u8>, fs: Seq<FieldModel>, d: nat, cfg: NestedEncoderConfig) -> Result<
    Seq<u8>,
    BinaryErrorModel,
>
    decreases fsize(fs), 0nat,
{
    if fs.len() == 0 {
        Ok(acc)
    } else {
        match enc_value(fs[0].value, d + 1, cfg) {
            Err(e) => Err(e),
            Ok(vb) => {
                let nb = acc + sleb128(fs[0].fid as int) + vb;
                if over_limit(nb, cfg) {
                    Err(
                        BinaryErrorModel::RecordSizeExceeded {
                            size: nb.len(),
                            max: cfg.max_record_size->0 as nat,
                        },
                    )
                } else {
                    enc_fields(nb, fs.subrange(1, fs.len() as int), d, cfg)
                }
            },
        }
    }
}

/// Encoding of an array of records at depth `d`: tag, element count, then
/// the records one level deeper.
pub open spec fn enc_array(rs: Seq<Seq<FieldModel>>, d: nat, cfg: NestedEncoderConfig) -> Result<
    Seq<u8>,
    BinaryErrorModel,
>
    decreases rsize(rs) + 1, 1nat,
{
    if d >= cfg.max_depth {
        Err(BinaryErrorModel::NestingDepthExceeded { depth: d, max: cfg.max_depth as nat })
    } else {
        enc_elems(seq![7u8] + sleb128((rs.len() as i64) as int), rs, d, cfg)
    }
}

/// `acc` followed by the records of an array at depth `d`, the size limit
/// checked after each.
pub open spec fn enc_elems(acc: Seq<u8>, rs: Seq<Seq<FieldModel>>, d: nat, cfg: NestedEncoderConfig) -> Result<
    Seq<u8>,
    BinaryErrorModel,
>
    decreases rsize(rs), 0nat,
{
    if rs.len() == 0 {
        Ok(acc)
    } else {
        match enc_record(rs[0], d + 1, cfg) {
            Err(e) => Err(e),
            Ok(rb) => {
                let nb = acc + rb;
                if over_limit(nb, cfg) {
                    Err(
                        BinaryErrorModel::RecordSizeExceeded {
                            size: nb.len(),
                            max: cfg.max_record_size->0 as nat,
                        },
                    )
                } else {
                    enc_elems(nb, rs.subrange(1, rs.len() as int), d, cfg)
                }
            },
        }
    }
}

/// The wire forms of strings, with one more string at the end.
pub proof fn lemma_strings_wire_push(a: Seq<Seq<char>>, x: Seq<char>)
    ensures
        n_strings_wire(a.push(x)) == n_strings_wire(a) + n_string_wire(x),
    decreases a.len(),
{
    if a.len() == 0 {
        assert(a.push(x).subrange(1, 1) =~= Seq::<Seq<char>>::empty());
        assert(a.push(x)[0] == x);
        assert(n_strings_wire(a.push(x)) == n_string_wire(x) + n_strings_wire(Seq::<Seq<char>>::empty()));
        assert(n_strings_wire(a.push(x)) =~= n_string_wire(x) + Seq::<u8>::empty());
        assert(n_strings_wire(a) + n_string_wire(x) =~= n_string_wire(x));
    } else {
        let tl = a.subrange(1, a.len() as int);
        assert(a.push(x).subrange(1, a.len() + 1int) =~= tl.push(x));
        lemma_strings_wire_push(tl, x);
        assert(a.push(x)[0] == a[0]);
        assert(n_strings_wire(a.push(x)) == n_string_wire(a[0]) + n_strings_wire(tl.push(x)));
        assert(n_string_wire(a[0]) + (n_strings_wire(tl) + n_string_wire(x)) =~= (n_string_wire(a[0])
            + n_strings_wire(tl)) + n_string_wire(x));
    }
}

/// Model of an encoding result.
pub open spec fn bytes_result(r: Result<Vec<u8>, BinaryError>) -> Result<Seq<u8>, BinaryErrorModel> {
    match r {
        Ok(b) => Ok(b@),
        Err(e) => Err(e@),
    }
}

/// Encoder of nested records and arrays.
#[derive(Debug)]
pub struct BinaryNestedEncoder {
    /// Configuration.
    pub config: NestedEncoderConfig,
}

/// Appends the wire form of a string.
fn push_string(buffer: &mut Vec<u8>, s: &String)
    ensures
        final(buffer)@ == old(buffer)@ + n_string_wire(s@),
{
    let bytes = string_bytes(s);
    let len = varint::encode(bytes.len() as i64);
    append_bytes(buffer, len.as_slice());
    append_bytes(buffer, bytes);
    assert(final(buffer)@ =~= old(buffer)@ + n_string_wire(s@));
}

impl BinaryNestedEncoder {
    /// An encoder with the default configuration.
    pub fn new() -> (e: Self)
        ensures
            e.config == NestedEncoderConfig::spec_default(),
    {
        BinaryNestedEncoder { config: NestedEncoderConfig::new() }
    }

    /// An encoder with `config`.
    pub fn with_config(config: NestedEncoderConfig) -> (e: Self)
        ensures
            e.config == config,
    {
        BinaryNestedEncoder { config }
    }

    /// Encodes a record as a nested record at depth 0.
    pub fn encode_nested_record(&self, record: &LnmpRecord) -> (r: Result<Vec<u8>, BinaryError>)
        ensures
            bytes_result(r) == enc_record(record@, 0, self.config),
    {
        self.encode_record_at(record, 0)
    }

    /// Encodes records as a nested array at depth 0.
    pub fn encode_nested_array(&self, records: &[LnmpRecord]) -> (r: Result<Vec<u8>, BinaryError>)
        ensures
            bytes_result(r) == enc_array(records_model(records@), 0, self.config),
    {
        self.encode_array_at(records, 0)
    }

    /// Encodes a record at depth `d`.
    fn encode_record_at(&self, record: &LnmpRecord, d: usize) -> (r: Result<Vec<u8>, BinaryError>)
        ensures
            bytes_result(r) == enc_record(record@, d as nat, self.config),
        decreases fsize(record@) + 1, 1nat,
    {
        if d >= self.config.max_depth {
            return Err(BinaryError::NestingDepthExceeded { depth: d, max: self.config.max_depth });
        }
        let fields = record.sorted_fields();
        let ghost sorted = fields_model(fields@);
        proof {
            lemma_fields_model(fields@);
            lemma_fsize_sort(record@);
        }
        let mut buffer: Vec<u8> = Vec::new();
        buffer.push(0x06);
        let count = varint::encode(fields.len() as i64);
        append_bytes(&mut buffer, count.as_slice());
        let n = fields.len();
        let mut i: usize = 0;
        assert(buffer@ =~= seq![6u8] + sleb128((record@.len() as i64) as int));
        assert(sorted.subrange(0, n as int) =~= sorted);
        while i < n
            invariant
                n == fields@.len(),
                n == sorted.len(),
                i <= n,
                d < self.config.max_depth,
                sorted == fields_model(fields@),
                sorted == sort_by_fid(record@),
                fsize(sorted) == fsize(record@),
                forall|j: int| 0 <= j < n ==> #[trigger] sorted[j] == fields@[j]@,
                enc_record(record@, d as nat, self.config) == enc_fields(
                    buffer@,
                    sorted.subrange(i as int, n as int),
                    d as nat,
                    self.config,
                ),
            decreases n - i,
        {
            let field = &fields[i];
            proof {
                lemma_fsize_member(sorted, i as int);
                assert(sorted[i as int] == field@);
            }
            let ghost before = buffer@;
            let fid = varint::encode(field.fid as i64);
            append_bytes(&mut buffer, fid.as_slice());
            let value_bytes = match self.encode_value_at(&field.value, d + 1) {
                Ok(b) => b,
                Err(e) => return Err(e),
            };
            append_bytes(&mut buffer, value_bytes.as_slice());
            proof {
                let rest = sorted.subrange(i as int, n as int);
                assert(rest[0] == sorted[i as int]);
                assert(rest.subrange(1, rest.len() as int) =~= sorted.subrange(i + 1, n as int));
                assert(buffer@ =~= before + sleb128(rest[0].fid as int) + value_bytes@);
            }
            match self.config.max_record_size {
                Some(max_size) => {
                    if buffer.len() > max_size {
                        return Err(BinaryError::RecordSizeExceeded { size: buffer.len(), max: max_size });
                    }
                },
                None => {},
            }
            i = i + 1;
        }
        Ok(buffer)
    }

    /// Encodes records as a nested array at depth `d`.
    fn encode_array_at(&self, records: &[LnmpRecord], d: usize) -> (r: Result<Vec<u8>, BinaryError>)
        ensures
            bytes_result(r) == enc_array(records_model(records@), d as nat, self.config),
        decreases rsize(records_model(records@)) + 1, 1nat,
    {
        if d >= self.config.max_depth {
            return Err(BinaryError::NestingDepthExceeded { depth: d, max: self.config.max_depth });
        }
        let ghost rs = records_model(records@);
        proof {
            lemma_records_model(records@);
        }
        let mut buffer: Vec<u8> = Vec::new();
        buffer.push(0x07);
        let count = varint::encode(records.len() as i64);
        append_bytes(&mut buffer, count.as_slice());
        let n = records.len();
        let mut i: usize = 0;
        assert(buffer@ =~= seq![7u8] + sleb128((rs.len() as i64) as int));
        assert(rs.subrange(0, n as int) =~= rs);
        while i < n
            invariant
                n == records@.len(),
                n == rs.len(),
                i <= n,
                d < self.config.max_depth,
                rs == records_model(records@),
                forall|j: int| 0 <= j < n ==> #[trigger] rs[j] == records@[j]@,
                enc_array(rs, d as nat, self.config) == enc_elems(
                    buffer@,
                    rs.subrange(i as int, n as int),
                    d as nat,
                    self.config,
                ),
            decreases n - i,
        {
            proof {
                lemma_rsize_member(rs, i as int);
                assert(rs[i as int] == records@[i as int]@);
            }
            let ghost before = buffer@;
            let record_bytes = match self.encode_record_at(&records[i], d + 1) {
                Ok(b) => b,
                Err(e) => return Err(e),
            };
            append_bytes(&mut buffer, record_bytes.as_slice());
            proof {
                let rest = rs.subrange(i as int, n as int);
                assert(rest[0] == rs[i as int]);
                assert(rest.subrange(1, rest.len() as int) =~= rs.subrange(i + 1, n as int));
            }
            match self.config.max_record_size {
                Some(max_size) => {
                    if buffer.len() > max_size {
                        return Err(BinaryError::RecordSizeExceeded { size: buffer.len(), max: max_size });
                    }
                },
                None => {},
            }
            i = i + 1;
        }
        Ok(buffer)
    }

    /// Encodes a value at depth `d`.
    fn encode_value_at(&self, value: &LnmpValue, d: usize) -> (r: Result<Vec<u8>, BinaryError>)
        ensures
            bytes_result(r) == enc_value(value@, d as nat, self.config),
        decreases vsize(value@), 2nat,
    {
        let mut buffer: Vec<u8> = Vec::new();
        match value {
            LnmpValue::Int(i) => {
                buffer.push(0x01);
                let v = varint::encode(*i);
                append_bytes(&mut buffer, v.as_slice());
                assert(buffer@ =~= n_flat_wire(value@));
                Ok(buffer)
            },
            LnmpValue::Float(bits) => {
                buffer.push(0x02);
                push_le64(&mut buffer, *bits);
                assert(buffer@ =~= n_flat_wire(value@));
                Ok(buffer)
            },
            LnmpValue::Bool(b) => {
                buffer.push(0x03);
                buffer.push(if *b { 0x01 } else { 0x00 });
                assert(buffer@ =~= n_flat_wire(value@));
                Ok(buffer)
            },
            LnmpValue::String(s) => {
                buffer.push(0x04);
                push_string(&mut buffer, s);
                assert(buffer@ =~= n_flat_wire(value@));
                Ok(buffer)
            },
            LnmpValue::StringArray(arr) => {
                buffer.push(0x05);
                let count = varint::encode(arr.len() as i64);
                append_bytes(&mut buffer, count.as_slice());
                let ghost a = crate::record::strings_model(arr@);
                let ghost head = buffer@;
                let mut i: usize = 0;
                assert(a.take(0) =~= Seq::<Seq<char>>::empty());
                assert(buffer@ =~= head + n_strings_wire(a.take(0)));
                while i < arr.len()
                    invariant
                        i <= arr@.len(),
                        a == crate::record::strings_model(arr@),
                        buffer@ == head + n_strings_wire(a.take(i as int)),
                    decreases arr.len() - i,
                {
                    push_string(&mut buffer, &arr[i]);
                    proof {
                        assert(a.take(i + 1) =~= a.take(i as int).push(arr@[i as int]@));
                        lemma_strings_wire_push(a.take(i as int), arr@[i as int]@);
                    }
                    i = i + 1;
                }
                assert(a.take(arr@.len() as int) =~= a);
                assert(buffer@ =~= n_flat_wire(value@));
                Ok(buffer)
            },
            LnmpValue::NestedRecord(record) => {
                if d >= self.config.max_depth {
                    return Err(BinaryError::NestingDepthExceeded { depth: d, max: self.config.max_depth });
                }
                self.encode_record_at(record, d)
            },
            LnmpValue::NestedArray(records) => {
                if d >= self.config.max_depth {
                    return Err(BinaryError::NestingDepthExceeded { depth: d, max: self.config.max_depth });
                }
                self.encode_array_at(records.as_slice(), d)
            },
        }
    }
}

impl Default for BinaryNestedEncoder {
    fn default() -> (e: Self)
        ensures
            e.config == NestedEncoderConfig::spec_default(),
    {
        Self::new()
    }
}

/// A value with the fields of every record in identifier order, at every
/// level: what decoding an encoded value gives back.
pub open spec fn canon_value(v: ValueModel) -> ValueModel
    decreases vsize(v), 2nat,
{
    match v {
        ValueModel::Record(fs) => ValueModel::Record(canon_record(fs)),
        ValueModel::RecordArray(rs) => ValueModel::RecordArray(canon_records(rs)),
        _ => v,
    }
}

/// The fields of a record in identifier order, each value made canonical.
pub open spec fn canon_record(fs: Seq<FieldModel>) -> Seq<FieldModel>
    decreases fsize(fs) + 1, 1nat,
{
    proof {
        lemma_fsize_sort(fs);
    }
    canon_fields(sort_by_fid(fs))
}

/// Fields with each value made canonical.
pub open spec fn canon_fields(fs: Seq<FieldModel>) -> Seq<FieldModel>
    decreases fsize(fs), 0nat,
{
    if fs.len() == 0 {
        Seq::empty()
    } else {
        seq![FieldModel { fid: fs[0].fid, value: canon_value(fs[0].value) }] + canon_fields(
            fs.subrange(1, fs.len() as int),
        )
    }
}

/// Records each made canonical.
pub open spec fn canon_records(rs: Seq<Seq<FieldModel>>) -> Seq<Seq<FieldModel>>
    decreases rsize(rs), 0nat,
{
    if rs.len() == 0 {
        Seq::empty()
    } else {
        seq![canon_record(rs[0])] + canon_records(rs.subrange(1, rs.len() as int))
    }
}

/// A length or count that a varint and a `usize` both carry exactly.
pub open spec fn count_fits(n: nat) -> bool {
    n <= i64::MAX && n <= usize::MAX
}

/// Every length and count in a value fits.
pub open spec fn v_fits(v: ValueModel) -> bool
    decreases vsize(v), 2nat,
{
    match v {
        ValueModel::Str(s) => count_fits(encode_utf8(s).len()),
        ValueModel::StrArray(a) => count_fits(a.len()) && forall|i: int|
            0 <= i < a.len() ==> count_fits(encode_utf8(#[trigger] a[i]).len()),
        ValueModel::Record(fs) => r_fits(fs),
        ValueModel::RecordArray(rs) => count_fits(rs.len()) && rs_fit(rs),
        _ => true,
    }
}

/// Every length and count in a record fits, its fields taken in encoding order.
pub open spec fn r_fits(fs: Seq<FieldModel>) -> bool
    decreases fsize(fs) + 1, 1nat,
{
    proof {
        lemma_fsize_sort(fs);
    }
    count_fits(fs.len()) && fs_fit(sort_by_fid(fs))
}

/// Every length and count in some fields fits.
pub open spec fn fs_fit(fs: Seq<FieldModel>) -> bool
    decreases fsize(fs), 0nat,
{
    if fs.len() == 0 {
        true
    } else {
        v_fits(fs[0].value) && fs_fit(fs.subrange(1, fs.len() as int))
    }
}

/// Every length and count in some records fits.
pub open spec fn rs_fit(rs: Seq<Seq<FieldModel>>) -> bool
    decreases rsize(rs), 0nat,
{
    if rs.len() == 0 {
        true
    } else {
        r_fits(rs[0]) && rs_fit(rs.subrange(1, rs.len() as int))
    }
}

/// The bytes written for fields start with what was there before.
pub proof fn lemma_enc_fields_prefix(acc: Seq<u8>, fs: Seq<FieldModel>, d: nat, cfg: NestedEncoderConfig)
    ensures
        enc_fields(acc, fs, d, cfg) matches Ok(w) ==> w.len() >= acc.len() && w.subrange(0, acc.len() as int) == acc,
    decreases fs.len(),
{
    if fs.len() > 0 {
        match enc_value(fs[0].value, d + 1, cfg) {
            Ok(vb) => {
                let nb = acc + sleb128(fs[0].fid as int) + vb;
                lemma_enc_fields_prefix(nb, fs.subrange(1, fs.len() as int), d, cfg);
                if let Ok(w) = enc_fields(acc, fs, d, cfg) {
                    assert(w.subrange(0, acc.len() as int) =~= w.subrange(0, nb.len() as int).subrange(0, acc.len() as int));
                    assert(nb.subrange(0, acc.len() as int) =~= acc);
                }
            },
            Err(_) => {},
        }
    } else {
        assert(acc.subrange(0, acc.len() as int) =~= acc);
    }
}

/// The bytes written for records start with what was there before.
pub proof fn lemma_enc_elems_prefix(acc: Seq<u8>, rs: Seq<Seq<FieldModel>>, d: nat, cfg: NestedEncoderConfig)
    ensures
        enc_elems(acc, rs, d, cfg) matches Ok(w) ==> w.len() >= acc.len() && w.subrange(0, acc.len() as int) == acc,
    decreases rs.len(),
{
    if rs.len() > 0 {
        match enc_record(rs[0], d + 1, cfg) {
            Ok(rb) => {
                let nb = acc + rb;
                lemma_enc_elems_prefix(nb, rs.subrange(1, rs.len() as int), d, cfg);
                if let Ok(w) = enc_elems(acc, rs, d, cfg) {
                    assert(w.subrange(0, acc.len() as int) =~= w.subrange(0, nb.len() as int).subrange(0, acc.len() as int));
                    assert(nb.subrange(0, acc.len() as int) =~= acc);
                }
            },
            Err(_) => {},
        }
    } else {
        assert(acc.subrange(0, acc.len() as int) =~= acc);
    }
}

} // verus!
