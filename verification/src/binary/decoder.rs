//! Binary decoder: v0.4 binary frames back to records.

use vstd::prelude::*;
use super::entry::{BinaryEntry, parse_entry, tail, eof_error};
use super::error::{BinaryError, BinaryErrorModel};
use super::frame::{BinaryFrame, parse_frame, entries_fields, entries_model, lemma_frame_len};
use super::types::tag_byte;
use super::varint::{self, varint_parse, wrap_i64};
use crate::numfmt::{decimal, push_decimal, push_str, string_of};
use super::encoder::{EncoderConfig, encode_outcome, record_fits, record_wire, lemma_record_roundtrip, lemma_sorted_encodable};
use crate::record::{LnmpRecord, FieldModel, fields_model, lemma_fields_model, is_stable_sort, fids_ascending, with_fid};

verus! {

/// Configuration of the binary decoder.
#[derive(Debug, Clone)]
pub struct DecoderConfig {
    /// Whether to require fields in ascending FID order.
    pub validate_ordering: bool,
    /// Whether to refuse bytes after the frame.
    pub strict_parsing: bool,
    /// Whether streaming frames are allowed (v0.5).
    pub allow_streaming: bool,
    /// Whether nesting is validated (v0.5).
    pub validate_nesting: bool,
    /// Whether delta packets are allowed (v0.5).
    pub allow_delta: bool,
    /// Maximum nesting depth (v0.5).
    pub max_depth: usize,
}

impl DecoderConfig {
    /// The default configuration.
    pub open spec fn spec_default() -> DecoderConfig {
        DecoderConfig {
            validate_ordering: false,
            strict_parsing: false,
            allow_streaming: false,
            validate_nesting: false,
            allow_delta: false,
            max_depth: 32,
        }
    }

    /// Default configuration: no ordering check, trailing bytes ignored, v0.5
    /// features off, depth 32.
    pub fn new() -> (c: DecoderConfig)
        ensures
            c == DecoderConfig::spec_default(),
    {
        DecoderConfig {
            validate_ordering: false,
            strict_parsing: false,
            allow_streaming: false,
            validate_nesting: false,
            allow_delta: false,
            max_depth: 32,
        }
    }

    /// Sets whether field order is checked.
    pub fn with_validate_ordering(self, validate: bool) -> (c: DecoderConfig)
        ensures
            c == (DecoderConfig { validate_ordering: validate, ..self }),
    {
        DecoderConfig { validate_ordering: validate, ..self }
    }

    /// Sets whether trailing bytes are refused.
    pub fn with_strict_parsing(self, strict: bool) -> (c: DecoderConfig)
        ensures
            c == (DecoderConfig { strict_parsing: strict, ..self }),
    {
        DecoderConfig { strict_parsing: strict, ..self }
    }

    /// Sets whether streaming frames are allowed.
    pub fn with_streaming(self, allow: bool) -> (c: DecoderConfig)
        ensures
            c == (DecoderConfig { allow_streaming: allow, ..self }),
    {
        DecoderConfig { allow_streaming: allow, ..self }
    }

    /// Sets whether nesting is validated.
    pub fn with_validate_nesting(self, validate: bool) -> (c: DecoderConfig)
        ensures
            c == (DecoderConfig { validate_nesting: validate, ..self }),
    {
        DecoderConfig { validate_nesting: validate, ..self }
    }

    /// Sets whether delta packets are allowed.
    pub fn with_delta(self, allow: bool) -> (c: DecoderConfig)
        ensures
            c == (DecoderConfig { allow_delta: allow, ..self }),
    {
        DecoderConfig { allow_delta: allow, ..self }
    }

    /// Sets the maximum nesting depth.
    pub fn with_max_depth(self, depth: usize) -> (c: DecoderConfig)
        ensures
            c == (DecoderConfig { max_depth: depth, ..self }),
    {
        DecoderConfig { max_depth: depth, ..self }
    }
}

impl Default for DecoderConfig {
    fn default() -> (c: DecoderConfig)
        ensures
            c == DecoderConfig::spec_default(),
    {
        DecoderConfig::new()
    }
}

/// The first position whose field has a smaller FID than the field before it.
pub open spec fn first_descent_from(t: Seq<FieldModel>, i: int) -> Option<int>
    decreases t.len() - i,
{
    if i >= t.len() || i < 1 {
        None
    } else if t[i].fid < t[i - 1].fid {
        Some(i)
    } else {
        first_descent_from(t, i + 1)
    }
}

/// Error for a field found after one with a larger FID.
pub open spec fn ordering_error(t: Seq<FieldModel>, i: int) -> BinaryErrorModel {
    BinaryErrorModel::CanonicalViolation {
        reason: "Fields not in ascending FID order: F"@ + decimal(t[i].fid as nat) + " appears after F"@
            + decimal(t[i - 1].fid as nat),
    }
}

/// Some field before position `j` has the FID of the field at `j`.
pub open spec fn has_earlier(t: Seq<FieldModel>, j: int) -> bool {
    exists|i: int| 0 <= i < j && t[i].fid == t[j].fid
}

/// The first position from `j` on whose FID already occurred before it.
pub open spec fn first_duplicate_from(t: Seq<FieldModel>, j: int) -> Option<int>
    decreases t.len() - j,
{
    if j >= t.len() || j < 0 {
        None
    } else if has_earlier(t, j) {
        Some(j)
    } else {
        first_duplicate_from(t, j + 1)
    }
}

/// Error for a field whose FID already occurred.
pub open spec fn duplicate_error(t: Seq<FieldModel>, j: int) -> BinaryErrorModel {
    BinaryErrorModel::CanonicalViolation { reason: "Duplicate FID: F"@ + decimal(t[j].fid as nat) }
}

/// What decoding `b` gives under configuration `c`: the fields of the record, or
/// the error. Field order is checked when the configuration asks for it,
/// repeated FIDs are always refused, and trailing bytes are refused in strict
/// mode.
pub open spec fn decode_outcome(c: DecoderConfig, b: Seq<u8>) -> Result<Seq<FieldModel>, BinaryErrorModel> {
    match parse_frame(b) {
        Err(e) => Err(e),
        Ok((_, _, es, n)) => {
            let t = entries_fields(es);
            if c.validate_ordering && first_descent_from(t, 1) is Some {
                Err(ordering_error(t, first_descent_from(t, 1).unwrap()))
            } else if first_duplicate_from(t, 0) is Some {
                Err(duplicate_error(t, first_duplicate_from(t, 0).unwrap()))
            } else if c.strict_parsing && n < b.len() {
                Err(BinaryErrorModel::TrailingData { bytes_remaining: (b.len() - n) as nat })
            } else {
                Ok(t)
            }
        },
    }
}

/// Binary decoder for records.
#[derive(Debug)]
pub struct BinaryDecoder {
    /// The configuration.
    pub config: DecoderConfig,
}

impl BinaryDecoder {
    /// Decoder with the default configuration.
    pub fn new() -> (d: BinaryDecoder)
        ensures
            d.config == DecoderConfig::spec_default(),
    {
        BinaryDecoder { config: DecoderConfig::new() }
    }

    /// Decoder with the given configuration.
    pub fn with_config(config: DecoderConfig) -> (d: BinaryDecoder)
        ensures
            d.config == config,
    {
        BinaryDecoder { config }
    }

    /// Decodes a v0.4 frame into a record, fields in wire order; checks field order
    /// and trailing bytes when the configuration asks for it.
    pub fn decode(&self, bytes: &[u8]) -> (r: Result<LnmpRecord, BinaryError>)
        ensures
            match decode_outcome(self.config, bytes@) {
                Ok(t) => r matches Ok(rec) && rec@ == t,
                Err(e) => r matches Err(x) && x@ == e,
            },
    {
        let (frame, consumed) = match BinaryFrame::decode_with_len(bytes) {
            Ok(p) => p,
            Err(e) => {
                return Err(e);
            },
        };
        let record = frame.to_record();
        if self.config.validate_ordering {
            match validate_field_ordering(&record) {
                Ok(()) => {},
                Err(e) => {
                    return Err(e);
                },
            }
        }
        proof {
            lemma_frame_len(bytes@);
        }
        match validate_no_duplicates(&record) {
            Ok(()) => {},
            Err(e) => {
                return Err(e);
            },
        }
        if self.config.strict_parsing && consumed < bytes.len() {
            return Err(BinaryError::TrailingData { bytes_remaining: bytes.len() - consumed });
        }
        Ok(record)
    }

    /// The version byte of `bytes`.
    pub fn detect_version(&self, bytes: &[u8]) -> (r: Result<u8, BinaryError>)
        ensures
            bytes@.len() == 0 ==> (r matches Err(e) && e@ == eof_error(1, 0)),
            bytes@.len() > 0 ==> r == Ok::<u8, BinaryError>(bytes@[0]),
    {
        if bytes.len() == 0 {
            return Err(BinaryError::UnexpectedEof { expected: 1, found: 0 });
        }
        Ok(bytes[0])
    }

    /// Whether the frame in `bytes` carries an entry with a v0.5 type tag
    /// (0x06 to 0x0F). Entries are scanned in order: the tag byte of each
    /// (after its two FID bytes) is looked at first, and a v0.4 entry is
    /// read to find the next; the scan answers `false` when the data ends,
    /// the count is read, or an entry cannot be read.
    pub fn supports_nested(&self, bytes: &[u8]) -> (r: bool)
        ensures
            r == frame_has_nested(bytes@),
    {
        if bytes.len() < 3 {
            return false;
        }
        let rest = vstd::slice::slice_subrange(bytes, 2, bytes.len());
        let (count, consumed) = match varint::decode(rest) {
            Ok(p) => p,
            Err(_) => {
                return false;
            },
        };
        if count < 0 {
            return false;
        }
        let ghost b = bytes@;
        let mut offset: usize = 2 + consumed;
        let mut i: i64 = 0;
        while i < count
            invariant
                b == bytes@,
                offset <= bytes@.len(),
                0 <= i <= count,
                frame_has_nested(b) == nested_scan(b, offset as int, (count - i) as nat),
            decreases count - i,
        {
            if offset >= bytes.len() {
                return false;
            }
            let sub = vstd::slice::slice_subrange(bytes, offset, bytes.len());
            if sub.len() >= 3 && bytes[offset + 2] >= 0x06 && bytes[offset + 2] <= 0x0F {
                assert(sub@[2] == b[offset + 2]);
                return true;
            }
            proof {
                if sub@.len() >= 3 {
                    assert(sub@[2] == b[offset + 2]);
                }
            }
            match BinaryEntry::decode(sub) {
                Ok((_, n)) => {
                    proof {
                        super::entry::lemma_entry_len(sub@);
                    }
                    offset = offset + n;
                },
                Err(_) => {
                    return false;
                },
            }
            i += 1;
        }
        false
    }
}

/// Whether `k` entries read one after another from `off` include one with a
/// v0.5 type tag before the data ends or an entry cannot be read.
pub open spec fn nested_scan(b: Seq<u8>, off: int, k: nat) -> bool
    decreases k,
{
    if k == 0 || off < 0 || off >= b.len() {
        false
    } else {
        let sub = b.subrange(off, b.len() as int);
        if sub.len() >= 3 && 0x06 <= sub[2] <= 0x0F {
            true
        } else {
            match parse_entry(sub) {
                Ok((_, _, _, n)) => nested_scan(b, off + n, (k - 1) as nat),
                Err(_) => false,
            }
        }
    }
}

/// Whether the frame in `b` carries an entry with a v0.5 type tag: after the
/// version and flags bytes and the entry count, the entries are scanned.
pub open spec fn frame_has_nested(b: Seq<u8>) -> bool {
    if b.len() < 3 {
        false
    } else {
        match varint_parse(b.subrange(2, b.len() as int)) {
            None => false,
            Some((c, m)) => c >= 0 && nested_scan(b, (2 + m) as int, c as nat),
        }
    }
}

proof fn lemma_ascending_no_descent(t: Seq<FieldModel>, i: int)
    requires
        fids_ascending(t),
        i >= 1,
    ensures
        first_descent_from(t, i) is None,
    decreases t.len() - i,
{
    if i < t.len() {
        lemma_ascending_no_descent(t, i + 1);
    }
}

/// Two elements that a filter keeps make the filtered sequence at least two long.
proof fn lemma_filter_two(s: Seq<FieldModel>, p: spec_fn(FieldModel) -> bool, i: int, j: int)
    requires
        0 <= i < j < s.len(),
        p(s[i]),
        p(s[j]),
    ensures
        s.filter(p).len() >= 2,
    decreases s.len(),
{
    let init = s.drop_last();
    assert(s =~= init.push(s.last()));
    init.lemma_filter_push(s.last(), p);
    if j == s.len() - 1 {
        assert(init[i] == s[i]);
        init.lemma_filter_contains(p, i);
    } else {
        assert(init[i] == s[i] && init[j] == s[j]);
        lemma_filter_two(init, p, i, j);
    }
}

/// Fields in which no FID occurs twice have no repeated FID from any position on.
proof fn lemma_no_duplicate(t: Seq<FieldModel>, j: int)
    requires
        forall|f: u16| #[trigger] with_fid(t, f).len() <= 1,
    ensures
        first_duplicate_from(t, j) is None,
    decreases t.len() - j,
{
    if 0 <= j < t.len() {
        if has_earlier(t, j) {
            let i = choose|i: int| 0 <= i < j && t[i].fid == t[j].fid;
            lemma_filter_two(t, |x: FieldModel| x.fid == t[j].fid, i, j);
            assert(with_fid(t, t[j].fid).len() <= 1);
        }
        lemma_no_duplicate(t, j + 1);
    }
}

/// Decoding, under any decoder configuration, the bytes that the encoder writes for
/// a record in which no FID occurs twice gives back the record's fields ordered
/// by FID.
pub proof fn lemma_encode_decode(
    c: EncoderConfig,
    d: DecoderConfig,
    r: Seq<FieldModel>,
    t: Seq<FieldModel>,
)
    requires
        record_fits(r),
        encode_outcome(c, r) is Ok,
        is_stable_sort(r, t),
        t.len() == r.len(),
        forall|f: u16| #[trigger] with_fid(r, f).len() <= 1,
    ensures
        decode_outcome(d, record_wire(t)) == Ok::<Seq<FieldModel>, BinaryErrorModel>(t),
{
    assert forall|f: u16| #[trigger] with_fid(t, f).len() <= 1 by {
        assert(with_fid(t, f) == with_fid(r, f));
    }
    lemma_no_duplicate(t, 0);
    lemma_sorted_encodable(r, t);
    lemma_record_roundtrip(t, Seq::empty());
    assert(record_wire(t) + Seq::<u8>::empty() =~= record_wire(t));
    lemma_ascending_no_descent(t, 1);
}

/// Refuses a record whose fields are not in ascending FID order.
fn validate_field_ordering(record: &LnmpRecord) -> (r: Result<(), BinaryError>)
    ensures
        match first_descent_from(record@, 1) {
            Some(i) => r matches Err(x) && x@ == ordering_error(record@, i),
            None => r is Ok,
        },
{
    let fields = record.fields();
    proof {
        lemma_fields_model(fields@);
    }
    let mut i: usize = 1;
    while i < fields.len()
        invariant
            1 <= i,
            fields_model(fields@) == record@,
            record@.len() == fields@.len(),
            forall|j: int| 0 <= j < fields@.len() ==> record@[j] == (#[trigger] fields@[j])@,
            i <= fields@.len() || fields@.len() == 0,
            first_descent_from(record@, 1) == first_descent_from(record@, i as int),
        decreases fields@.len() - i,
    {
        if fields[i].fid < fields[i - 1].fid {
            let mut reason = string_of("Fields not in ascending FID order: F");
            push_decimal(&mut reason, fields[i].fid as u64);
            push_str(&mut reason, " appears after F");
            push_decimal(&mut reason, fields[i - 1].fid as u64);
            return Err(BinaryError::CanonicalViolation { reason });
        }
        i += 1;
    }
    Ok(())
}

/// Refuses a record in which some FID occurs twice.
fn validate_no_duplicates(record: &LnmpRecord) -> (r: Result<(), BinaryError>)
    ensures
        match first_duplicate_from(record@, 0) {
            Some(j) => r matches Err(x) && x@ == duplicate_error(record@, j),
            None => r is Ok,
        },
{
    let fields = record.fields();
    proof {
        lemma_fields_model(fields@);
    }
    let ghost t = record@;
    let mut seen: Vec<bool> = vec![false; 65536];
    let mut j: usize = 0;
    while j < fields.len()
        invariant
            j <= fields@.len(),
            t == record@,
            fields_model(fields@) == t,
            t.len() == fields@.len(),
            forall|k: int| 0 <= k < fields@.len() ==> t[k] == (#[trigger] fields@[k])@,
            seen@.len() == 65536,
            forall|f: u16| #[trigger] seen@[f as int] == exists|i: int| 0 <= i < j && t[i].fid == f,
            first_duplicate_from(t, 0) == first_duplicate_from(t, j as int),
        decreases fields@.len() - j,
    {
        let f = fields[j].fid;
        assert(t[j as int].fid == f);
        if seen[f as usize] {
            assert(has_earlier(t, j as int));
            let mut reason = string_of("Duplicate FID: F");
            push_decimal(&mut reason, f as u64);
            return Err(BinaryError::CanonicalViolation { reason });
        }
        proof {
            assert(!has_earlier(t, j as int)) by {
                if has_earlier(t, j as int) {
                    let i = choose|i: int| 0 <= i < j && t[i].fid == t[j as int].fid;
                    assert(seen@[f as int]);
                }
            }
            lemma_duplicate_step(t, 0, j as int);
        }
        seen.set(f as usize, true);
        proof {
            assert forall|g: u16| #[trigger] seen@[g as int] == exists|i: int| 0 <= i < j + 1 && t[i].fid == g by {
                if g == f {
                    assert(t[j as int].fid == g);
                } else if exists|i: int| 0 <= i < j + 1 && t[i].fid == g {
                    let i = choose|i: int| 0 <= i < j + 1 && t[i].fid == g;
                    assert(i < j);
                }
            }
        }
        j += 1;
    }
    Ok(())
}

/// Skipping a position without an earlier FID keeps the first duplicate.
proof fn lemma_duplicate_step(t: Seq<FieldModel>, a: int, j: int)
    requires
        0 <= a <= j < t.len(),
        first_duplicate_from(t, a) == first_duplicate_from(t, j),
        !has_earlier(t, j),
    ensures
        first_duplicate_from(t, a) == first_duplicate_from(t, j + 1),
{
}

impl Default for BinaryDecoder {
    fn default() -> (d: BinaryDecoder)
        ensures
            d.config == DecoderConfig::spec_default(),
    {
        BinaryDecoder::new()
    }
}

} // verus!
