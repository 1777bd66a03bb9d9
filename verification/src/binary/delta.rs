//! Delta packets: the changes between two records as a list of operations
//! (set, delete, update a field, or merge changes into a nested record), their
//! wire form, and their application to a record.
//!
//! Packet layout: tag 0xB0, operation count (varint), then each operation as
//! target field identifier (varint), operation code (1 byte), payload length
//! (varint) and payload.

use vstd::prelude::*;
use super::error::{BinaryError, BinaryErrorModel, binary_error_text};
use super::varint::{self, sleb128, varint_parse, varint_error_reason};
use super::wire::append_bytes;
use super::entry::{BinaryEntry, parse_entry, flat_payload, value_fits};
use super::types::{BinaryValue, tag_byte, model_tag, is_flat};
use super::nested_encoder::{vsize, fsize, rsize, lemma_fsize_member, lemma_rsize_member};
use super::varint::lemma_varint_len;
use crate::record::{
    LnmpField, LnmpRecord, LnmpValue, FieldModel, ValueModel, first_with_fid, fields_model,
    lemma_fields_model, strings_model,
};
use crate::numfmt::{decimal, hex_digits, signed_decimal, push_str, push_decimal, push_hex, push_signed_decimal, string_of};

verus! {

/// Kind of a delta operation.
#[derive(Debug, Clone, Copy, PartialEq, Eq, Structural)]
pub enum DeltaOperation {
    /// Set a field (0x01).
    SetField,
    /// Delete a field (0x02).
    DeleteField,
    /// Update an existing field (0x03).
    UpdateField,
    /// Merge changes into a nested record (0x04).
    MergeRecord,
}

/// Byte of an operation.
pub open spec fn op_byte(o: DeltaOperation) -> u8 {
    match o {
        DeltaOperation::SetField => 0x01,
        DeltaOperation::DeleteField => 0x02,
        DeltaOperation::UpdateField => 0x03,
        DeltaOperation::MergeRecord => 0x04,
    }
}

/// Operation named by a byte.
pub open spec fn op_of(b: u8) -> Option<DeltaOperation> {
    if b == 1 {
        Some(DeltaOperation::SetField)
    } else if b == 2 {
        Some(DeltaOperation::DeleteField)
    } else if b == 3 {
        Some(DeltaOperation::UpdateField)
    } else if b == 4 {
        Some(DeltaOperation::MergeRecord)
    } else {
        None
    }
}

impl DeltaOperation {
    /// The operation with code `byte`.
    pub fn from_u8(byte: u8) -> (r: Result<Self, DeltaError>)
        ensures
            match op_of(byte) {
                Some(o) => r == Ok::<DeltaOperation, DeltaError>(o),
                None => r == Err::<DeltaOperation, DeltaError>(DeltaError::InvalidOperation { op_code: byte }),
            },
    {
        match byte {
            0x01 => Ok(DeltaOperation::SetField),
            0x02 => Ok(DeltaOperation::DeleteField),
            0x03 => Ok(DeltaOperation::UpdateField),
            0x04 => Ok(DeltaOperation::MergeRecord),
            _ => Err(DeltaError::InvalidOperation { op_code: byte }),
        }
    }

    /// The code of this operation.
    pub fn to_u8(self) -> (b: u8)
        ensures
            b == op_byte(self),
    {
        match self {
            DeltaOperation::SetField => 0x01,
            DeltaOperation::DeleteField => 0x02,
            DeltaOperation::UpdateField => 0x03,
            DeltaOperation::MergeRecord => 0x04,
        }
    }
}

/// Reading back the code of an operation gives the operation.
pub proof fn lemma_op_roundtrip(o: DeltaOperation)
    ensures
        op_of(op_byte(o)) == Some(o),
{
}

/// Tag of a delta packet.
pub const DELTA_TAG: u8 = 0xB0;

/// One delta operation.
#[derive(Debug, Clone, PartialEq)]
pub struct DeltaOp {
    /// Field it applies to.
    pub target_fid: u16,
    /// Kind of operation.
    pub operation: DeltaOperation,
    /// Encoded value or nested operations.
    pub payload: Vec<u8>,
}

/// Model of a delta operation.
pub struct OpModel {
    pub target_fid: u16,
    pub operation: DeltaOperation,
    pub payload: Seq<u8>,
}

impl View for DeltaOp {
    type V = OpModel;

    open spec fn view(&self) -> OpModel {
        OpModel { target_fid: self.target_fid, operation: self.operation, payload: self.payload@ }
    }
}

/// Models of operations.
pub open spec fn ops_model(s: Seq<DeltaOp>) -> Seq<OpModel> {
    s.map_values(|o: DeltaOp| o@)
}

impl DeltaOp {
    /// An operation with the given parts.
    pub fn new(target_fid: u16, operation: DeltaOperation, payload: Vec<u8>) -> (o: Self)
        ensures
            o.target_fid == target_fid,
            o.operation == operation,
            o.payload == payload,
    {
        DeltaOp { target_fid, operation, payload }
    }
}

/// Configuration of delta encoding.
#[derive(Debug, Clone, Copy, PartialEq, Eq, Structural)]
pub struct DeltaConfig {
    /// Whether delta encoding is enabled.
    pub enable_delta: bool,
    /// Whether changes are tracked.
    pub track_changes: bool,
}

impl DeltaConfig {
    /// Delta encoding and change tracking both off.
    pub fn new() -> (c: Self)
        ensures
            c == (DeltaConfig { enable_delta: false, track_changes: false }),
    {
        DeltaConfig { enable_delta: false, track_changes: false }
    }

    /// Turns delta encoding on or off.
    pub fn with_enable_delta(self, enable: bool) -> (c: Self)
        ensures
            c == (DeltaConfig { enable_delta: enable, ..self }),
    {
        DeltaConfig { enable_delta: enable, ..self }
    }

    /// Turns change tracking on or off.
    pub fn with_track_changes(self, track: bool) -> (c: Self)
        ensures
            c == (DeltaConfig { track_changes: track, ..self }),
    {
        DeltaConfig { track_changes: track, ..self }
    }
}

impl Default for DeltaConfig {
    fn default() -> (c: Self)
        ensures
            c == (DeltaConfig { enable_delta: false, track_changes: false }),
    {
        Self::new()
    }
}

/// What a delta container's metadata says about how its packet is applied.
#[derive(Debug, Clone, Copy, PartialEq, Eq, Default)]
pub struct DeltaApplyContext {
    /// Snapshot the metadata names as the base.
    pub metadata_base: Option<u64>,
    /// Snapshot the caller requires as the base.
    pub required_base: Option<u64>,
    /// Delta algorithm identifier.
    pub algorithm: Option<u8>,
    /// Compression hint identifier.
    pub compression: Option<u8>,
}

/// Error of delta encoding or application.
#[derive(Debug, Clone, PartialEq)]
pub enum DeltaError {
    /// A target field that is missing or out of range.
    InvalidTargetFid {
        /// The field.
        fid: u16,
    },
    /// An unknown operation code.
    InvalidOperation {
        /// The code.
        op_code: u8,
    },
    /// A merge that cannot be done.
    MergeConflict {
        /// The field.
        fid: u16,
        /// Why.
        reason: String,
    },
    /// The delta could not be decoded or applied.
    DeltaApplicationFailed {
        /// Why.
        reason: String,
    },
    /// Error of the binary layer.
    BinaryError {
        /// The underlying error.
        source: BinaryError,
    },
}

/// Model of a delta error.
pub enum DeltaErrorModel {
    InvalidTargetFid { fid: u16 },
    InvalidOperation { op_code: u8 },
    MergeConflict { fid: u16, reason: Seq<char> },
    DeltaApplicationFailed { reason: Seq<char> },
    Binary { source: BinaryErrorModel },
}

impl View for DeltaError {
    type V = DeltaErrorModel;

    open spec fn view(&self) -> DeltaErrorModel {
        match self {
            DeltaError::InvalidTargetFid { fid } => DeltaErrorModel::InvalidTargetFid { fid: *fid },
            DeltaError::InvalidOperation { op_code } => DeltaErrorModel::InvalidOperation { op_code: *op_code },
            DeltaError::MergeConflict { fid, reason } => DeltaErrorModel::MergeConflict {
                fid: *fid,
                reason: reason@,
            },
            DeltaError::DeltaApplicationFailed { reason } => DeltaErrorModel::DeltaApplicationFailed {
                reason: reason@,
            },
            DeltaError::BinaryError { source } => DeltaErrorModel::Binary { source: source@ },
        }
    }
}

/// The message of a delta error.
pub open spec fn delta_error_text(e: DeltaError) -> Seq<char> {
    match e {
        DeltaError::InvalidTargetFid { fid } => "Invalid target FID: "@ + decimal(fid as nat),
        DeltaError::InvalidOperation { op_code } => "Invalid operation code: 0x"@ + hex_digits(op_code as nat, 2),
        DeltaError::MergeConflict { fid, reason } => "Merge conflict at FID "@ + decimal(fid as nat) + ": "@
            + reason@,
        DeltaError::DeltaApplicationFailed { reason } => "Delta application failed: "@ + reason@,
        DeltaError::BinaryError { source } => "Binary error: "@ + binary_error_text(source),
    }
}

impl DeltaError {
    /// The message of the error.
    pub fn message(&self) -> (s: String)
        ensures
            s@ == delta_error_text(*self),
    {
        let mut s = String::new();
        match self {
            DeltaError::InvalidTargetFid { fid } => {
                push_str(&mut s, "Invalid target FID: ");
                push_decimal(&mut s, *fid as u64);
            },
            DeltaError::InvalidOperation { op_code } => {
                push_str(&mut s, "Invalid operation code: 0x");
                push_hex(&mut s, *op_code as u64, 2);
            },
            DeltaError::MergeConflict { fid, reason } => {
                push_str(&mut s, "Merge conflict at FID ");
                push_decimal(&mut s, *fid as u64);
                push_str(&mut s, ": ");
                push_str(&mut s, reason.as_str());
            },
            DeltaError::DeltaApplicationFailed { reason } => {
                push_str(&mut s, "Delta application failed: ");
                push_str(&mut s, reason.as_str());
            },
            DeltaError::BinaryError { source } => {
                push_str(&mut s, "Binary error: ");
                let m = source.message();
                push_str(&mut s, m.as_str());
            },
        }
        proof {
            assert(s@ =~= delta_error_text(*self));
        }
        s
    }
}

impl From<BinaryError> for DeltaError {
    fn from(err: BinaryError) -> (r: Self) {
        DeltaError::BinaryError { source: err }
    }
}

impl vstd::std_specs::convert::FromSpecImpl<BinaryError> for DeltaError {
    open spec fn obeys_from_spec() -> bool {
        true
    }

    open spec fn from_spec(v: BinaryError) -> Self {
        DeltaError::BinaryError { source: v }
    }
}

/// Wire form of one operation.
pub open spec fn op_wire(o: OpModel) -> Seq<u8> {
    sleb128(o.target_fid as int) + seq![op_byte(o.operation)] + sleb128((o.payload.len() as i64) as int)
        + o.payload
}

/// Wire forms of operations, one after another.
pub open spec fn ops_wire(s: Seq<OpModel>) -> Seq<u8>
    decreases s.len(),
{
    if s.len() == 0 {
        Seq::empty()
    } else {
        ops_wire(s.drop_last()) + op_wire(s.last())
    }
}

/// Wire form of a delta packet.
pub open spec fn delta_wire(s: Seq<OpModel>) -> Seq<u8> {
    seq![DELTA_TAG] + sleb128((s.len() as i64) as int) + ops_wire(s)
}

/// Wire form of nested operations: the count, then the operations.
pub open spec fn nested_ops_wire(s: Seq<OpModel>) -> Seq<u8> {
    sleb128((s.len() as i64) as int) + ops_wire(s)
}

/// Appends the wire forms of `ops`.
fn push_ops(out: &mut Vec<u8>, ops: &[DeltaOp])
    ensures
        final(out)@ == old(out)@ + ops_wire(ops_model(ops@)),
{
    let ghost head = out@;
    let mut i: usize = 0;
    assert(ops_model(ops@).take(0) =~= Seq::<OpModel>::empty());
    assert(out@ =~= head + ops_wire(ops_model(ops@).take(0)));
    while i < ops.len()
        invariant
            i <= ops@.len(),
            out@ == head + ops_wire(ops_model(ops@).take(i as int)),
        decreases ops.len() - i,
    {
        let op = &ops[i];
        let fid = varint::encode(op.target_fid as i64);
        append_bytes(out, fid.as_slice());
        out.push(op.operation.to_u8());
        let len = varint::encode(op.payload.len() as i64);
        append_bytes(out, len.as_slice());
        append_bytes(out, op.payload.as_slice());
        proof {
            let t = ops_model(ops@).take(i + 1);
            assert(t.drop_last() =~= ops_model(ops@).take(i as int));
            assert(t.last() == ops@[i as int]@);
            assert(out@ =~= head + ops_wire(t));
        }
        i = i + 1;
    }
    assert(ops_model(ops@).take(ops@.len() as int) =~= ops_model(ops@));
}

/// Reads `k` operations one after another from `off`; `nested` selects the
/// wording of the errors for operations inside a merge.
pub open spec fn parse_ops(b: Seq<u8>, off: int, k: nat, nested: bool) -> Result<(Seq<OpModel>, int), DeltaErrorModel>
    decreases k,
{
    if k == 0 {
        Ok((Seq::empty(), off))
    } else {
        match varint_parse(b.subrange(off, b.len() as int)) {
            None => Err(DeltaErrorModel::Binary {
                source: BinaryErrorModel::InvalidVarInt { reason: varint_error_reason(b.subrange(off, b.len() as int)) },
            }),
            Some((f, n)) => if f < 0 || f > 65535 {
                Err(DeltaErrorModel::InvalidTargetFid { fid: (f as i64) as u16 })
            } else if off + n >= b.len() {
                Err(DeltaErrorModel::DeltaApplicationFailed {
                    reason: if nested {
                        "Unexpected end of nested operations"@
                    } else {
                        "Unexpected end of delta packet"@
                    },
                })
            } else {
                match op_of(b[off + n]) {
                    None => Err(DeltaErrorModel::InvalidOperation { op_code: b[off + n] }),
                    Some(o) => {
                        let p = off + n + 1;
                        match varint_parse(b.subrange(p, b.len() as int)) {
                            None => Err(DeltaErrorModel::Binary {
                                source: BinaryErrorModel::InvalidVarInt {
                                    reason: varint_error_reason(b.subrange(p, b.len() as int)),
                                },
                            }),
                            Some((l, m)) => if l < 0 {
                                Err(DeltaErrorModel::DeltaApplicationFailed {
                                    reason: (if nested {
                                        "Negative nested payload length: "@
                                    } else {
                                        "Negative payload length: "@
                                    }) + signed_decimal(l),
                                })
                            } else {
                                let start = p + m;
                                let lu = ((l as i64) as usize) as int;
                                if start + lu > b.len() {
                                    Err(DeltaErrorModel::DeltaApplicationFailed {
                                        reason: if nested {
                                            "Nested payload length exceeds available data"@
                                        } else {
                                            "Payload length exceeds available data"@
                                        },
                                    })
                                } else {
                                    let op = OpModel {
                                        target_fid: f as u16,
                                        operation: o,
                                        payload: b.subrange(start, start + lu),
                                    };
                                    match parse_ops(b, start + lu, (k - 1) as nat, nested) {
                                        Err(e) => Err(e),
                                        Ok((rest, e)) => Ok((seq![op] + rest, e)),
                                    }
                                }
                            },
                        }
                    },
                }
            },
        }
    }
}

/// Reads a delta packet (delta encoding being enabled).
pub open spec fn parse_delta(b: Seq<u8>) -> Result<Seq<OpModel>, DeltaErrorModel> {
    if b.len() == 0 {
        Err(DeltaErrorModel::DeltaApplicationFailed { reason: "Empty delta packet"@ })
    } else if b[0] != DELTA_TAG {
        Err(DeltaErrorModel::DeltaApplicationFailed {
            reason: "Invalid delta tag: expected 0xB0, found 0x"@ + hex_digits(b[0] as nat, 2),
        })
    } else {
        match varint_parse(b.subrange(1, b.len() as int)) {
            None => Err(DeltaErrorModel::Binary {
                source: BinaryErrorModel::InvalidVarInt { reason: varint_error_reason(b.subrange(1, b.len() as int)) },
            }),
            Some((c, n)) => if c < 0 {
                Err(DeltaErrorModel::DeltaApplicationFailed { reason: "Negative operation count: "@ + signed_decimal(c) })
            } else {
                match parse_ops(b, 1 + n as int, ((c as i64) as usize) as nat, false) {
                    Err(e) => Err(e),
                    Ok((ops, _)) => Ok(ops),
                }
            },
        }
    }
}

/// Reads the nested operations of a merge.
pub open spec fn parse_nested_ops(b: Seq<u8>) -> Result<Seq<OpModel>, DeltaErrorModel> {
    match varint_parse(b) {
        None => Err(DeltaErrorModel::Binary { source: BinaryErrorModel::InvalidVarInt { reason: varint_error_reason(b) } }),
        Some((c, n)) => if c < 0 {
            Err(DeltaErrorModel::DeltaApplicationFailed {
                reason: "Negative nested operation count: "@ + signed_decimal(c),
            })
        } else {
            match parse_ops(b, n as int, ((c as i64) as usize) as nat, true) {
                Err(e) => Err(e),
                Ok((ops, _)) => Ok(ops),
            }
        },
    }
}

/// Model of a result carrying operations.
pub open spec fn ops_result(r: Result<Vec<DeltaOp>, DeltaError>) -> Result<Seq<OpModel>, DeltaErrorModel> {
    match r {
        Ok(v) => Ok(ops_model(v@)),
        Err(e) => Err(e@),
    }
}

/// The error for a disabled configuration.
pub open spec fn disabled_error() -> DeltaErrorModel {
    DeltaErrorModel::DeltaApplicationFailed { reason: "Delta is disabled in configuration"@ }
}

/// "Negative ...: N".
fn negative_message(prefix: &str, v: i64) -> (s: String)
    ensures
        s@ == prefix@ + signed_decimal(v as int),
{
    let mut s = string_of(prefix);
    push_signed_decimal(&mut s, v);
    s
}

/// Reads `k` operations one after another from `off`.
fn read_ops(bytes: &[u8], off: usize, k: usize, nested: bool) -> (r: Result<Vec<DeltaOp>, DeltaError>)
    requires
        off <= bytes@.len(),
    ensures
        match r {
            Ok(v) => parse_ops(bytes@, off as int, k as nat, nested) matches Ok((ops, _)) && ops == ops_model(v@),
            Err(e) => parse_ops(bytes@, off as int, k as nat, nested) == Err::<(Seq<OpModel>, int), DeltaErrorModel>(e@),
        },
{
    let n = bytes.len();
    let ghost b = bytes@;
    let mut ops: Vec<DeltaOp> = Vec::new();
    let mut pos = off;
    let mut i: usize = 0;
    assert(ops_model(ops@) + Seq::<OpModel>::empty() =~= Seq::<OpModel>::empty());
    assert(ops_model(ops@) =~= Seq::<OpModel>::empty());
    while i < k
        invariant
            b == bytes@,
            n == b.len(),
            off <= pos <= n,
            i <= k,
            parse_ops(b, off as int, k as nat, nested) == (match parse_ops(b, pos as int, (k - i) as nat, nested) {
                Ok((rest, e)) => Ok((ops_model(ops@) + rest, e)),
                Err(x) => Err::<(Seq<OpModel>, int), DeltaErrorModel>(x),
            }),
        decreases k - i,
    {
        let (fid, used) = match varint::decode(vstd::slice::slice_subrange(bytes, pos, n)) {
            Ok(p) => p,
            Err(e) => return Err(DeltaError::BinaryError { source: e }),
        };
        if fid < 0 || fid > 65535 {
            return Err(DeltaError::InvalidTargetFid { fid: fid as u16 });
        }
        let p0 = pos + used;
        if p0 >= n {
            let reason = if nested {
                string_of("Unexpected end of nested operations")
            } else {
                string_of("Unexpected end of delta packet")
            };
            return Err(DeltaError::DeltaApplicationFailed { reason });
        }
        let operation = match DeltaOperation::from_u8(bytes[p0]) {
            Ok(o) => o,
            Err(e) => return Err(e),
        };
        let p1 = p0 + 1;
        let (plen, used2) = match varint::decode(vstd::slice::slice_subrange(bytes, p1, n)) {
            Ok(p) => p,
            Err(e) => return Err(DeltaError::BinaryError { source: e }),
        };
        if plen < 0 {
            let reason = if nested {
                negative_message("Negative nested payload length: ", plen)
            } else {
                negative_message("Negative payload length: ", plen)
            };
            return Err(DeltaError::DeltaApplicationFailed { reason });
        }
        let lu = plen as usize;
        let start = p1 + used2;
        if lu > n - start {
            let reason = if nested {
                string_of("Nested payload length exceeds available data")
            } else {
                string_of("Payload length exceeds available data")
            };
            return Err(DeltaError::DeltaApplicationFailed { reason });
        }
        let mut payload: Vec<u8> = Vec::new();
        append_bytes(&mut payload, vstd::slice::slice_subrange(bytes, start, start + lu));
        let op = DeltaOp::new(fid as u16, operation, payload);
        let ghost acc = ops_model(ops@);
        let ghost om = op@;
        ops.push(op);
        proof {
            assert(ops_model(ops@) =~= acc.push(om));
            match parse_ops(b, (start + lu) as int, (k - i - 1) as nat, nested) {
                Ok((rest, e)) => {
                    assert(acc + (seq![om] + rest) =~= acc.push(om) + rest);
                },
                Err(_) => {},
            }
        }
        pos = start + lu;
        i = i + 1;
    }
    assert(ops_model(ops@) + Seq::<OpModel>::empty() =~= ops_model(ops@));
    Ok(ops)
}

/// Encodes delta operations.
pub struct DeltaEncoder {
    /// Configuration.
    pub config: DeltaConfig,
}

/// Decodes and applies delta operations.
pub struct DeltaDecoder {
    /// Configuration.
    pub config: DeltaConfig,
}

impl DeltaEncoder {
    /// An encoder with delta encoding off.
    pub fn new() -> (e: Self)
        ensures
            e.config == (DeltaConfig { enable_delta: false, track_changes: false }),
    {
        DeltaEncoder { config: DeltaConfig::new() }
    }

    /// An encoder with `config`.
    pub fn with_config(config: DeltaConfig) -> (e: Self)
        ensures
            e.config == config,
    {
        DeltaEncoder { config }
    }

    /// The packet carrying `ops`: tag, count, operations.
    pub fn encode_delta(&self, ops: &[DeltaOp]) -> (r: Result<Vec<u8>, DeltaError>)
        ensures
            r matches Ok(b) && b@ == delta_wire(ops_model(ops@)),
    {
        let mut result: Vec<u8> = Vec::new();
        result.push(DELTA_TAG);
        let count = varint::encode(ops.len() as i64);
        append_bytes(&mut result, count.as_slice());
        push_ops(&mut result, ops);
        assert(result@ =~= delta_wire(ops_model(ops@)));
        Ok(result)
    }

    /// The wire form of nested operations: count, operations.
    fn encode_nested_ops(&self, ops: &[DeltaOp]) -> (r: Result<Vec<u8>, DeltaError>)
        ensures
            r matches Ok(b) && b@ == nested_ops_wire(ops_model(ops@)),
    {
        let mut result: Vec<u8> = Vec::new();
        let count = varint::encode(ops.len() as i64);
        append_bytes(&mut result, count.as_slice());
        push_ops(&mut result, ops);
        Ok(result)
    }
}

impl Default for DeltaEncoder {
    fn default() -> (e: Self)
        ensures
            e.config == (DeltaConfig { enable_delta: false, track_changes: false }),
    {
        Self::new()
    }
}

impl DeltaDecoder {
    /// A decoder with delta encoding off.
    pub fn new() -> (d: Self)
        ensures
            d.config == (DeltaConfig { enable_delta: false, track_changes: false }),
    {
        DeltaDecoder { config: DeltaConfig::new() }
    }

    /// A decoder with `config`.
    pub fn with_config(config: DeltaConfig) -> (d: Self)
        ensures
            d.config == config,
    {
        DeltaDecoder { config }
    }

    /// Reads the operations of a delta packet; refused when delta encoding
    /// is disabled.
    pub fn decode_delta(&self, bytes: &[u8]) -> (r: Result<Vec<DeltaOp>, DeltaError>)
        ensures
            !self.config.enable_delta ==> ops_result(r) == Err::<Seq<OpModel>, DeltaErrorModel>(disabled_error()),
            self.config.enable_delta ==> ops_result(r) == parse_delta(bytes@),
    {
        if !self.config.enable_delta {
            return Err(DeltaError::DeltaApplicationFailed { reason: string_of("Delta is disabled in configuration") });
        }
        let n = bytes.len();
        if n == 0 {
            return Err(DeltaError::DeltaApplicationFailed { reason: string_of("Empty delta packet") });
        }
        if bytes[0] != DELTA_TAG {
            let mut reason = string_of("Invalid delta tag: expected 0xB0, found 0x");
            push_hex(&mut reason, bytes[0] as u64, 2);
            return Err(DeltaError::DeltaApplicationFailed { reason });
        }
        let (count, used) = match varint::decode(vstd::slice::slice_subrange(bytes, 1, n)) {
            Ok(p) => p,
            Err(e) => return Err(DeltaError::BinaryError { source: e }),
        };
        if count < 0 {
            return Err(DeltaError::DeltaApplicationFailed { reason: negative_message("Negative operation count: ", count) });
        }
        read_ops(bytes, 1 + used, count as usize, false)
    }

    /// Reads the nested operations of a merge payload.
    fn decode_nested_ops(&self, payload: &[u8]) -> (r: Result<Vec<DeltaOp>, DeltaError>)
        ensures
            ops_result(r) == parse_nested_ops(payload@),
    {
        let (count, used) = match varint::decode(payload) {
            Ok(p) => p,
            Err(e) => return Err(DeltaError::BinaryError { source: e }),
        };
        if count < 0 {
            return Err(
                DeltaError::DeltaApplicationFailed { reason: negative_message("Negative nested operation count: ", count) },
            );
        }
        read_ops(payload, used, count as usize, true)
    }
}

impl Default for DeltaDecoder {
    fn default() -> (d: Self)
        ensures
            d.config == (DeltaConfig { enable_delta: false, track_changes: false }),
    {
        Self::new()
    }
}

/// The bits of a double are a NaN.
pub open spec fn is_nan_bits(x: u64) -> bool {
    (x >> 52u64) & 0x7FFu64 == 0x7FFu64 && x & 0xF_FFFF_FFFF_FFFFu64 != 0
}

/// The bits of a double are a zero of either sign.
pub open spec fn is_zero_bits(x: u64) -> bool {
    x & 0x7FFF_FFFF_FFFF_FFFFu64 == 0
}

/// Equality of two doubles given by their bits: no NaN equals anything, and
/// the two zeros are equal.
pub open spec fn float_bits_eq(a: u64, b: u64) -> bool {
    !is_nan_bits(a) && !is_nan_bits(b) && (a == b || (is_zero_bits(a) && is_zero_bits(b)))
}

/// Equality of two values, floats compared as numbers.
pub open spec fn model_eq(a: ValueModel, b: ValueModel) -> bool
    decreases a, 1int,
{
    match (a, b) {
        (ValueModel::Int(x), ValueModel::Int(y)) => x == y,
        (ValueModel::Float(x), ValueModel::Float(y)) => float_bits_eq(x, y),
        (ValueModel::Bool(x), ValueModel::Bool(y)) => x == y,
        (ValueModel::Str(x), ValueModel::Str(y)) => x == y,
        (ValueModel::StrArray(x), ValueModel::StrArray(y)) => x == y,
        (ValueModel::Record(x), ValueModel::Record(y)) => fields_eq(x, y),
        (ValueModel::RecordArray(x), ValueModel::RecordArray(y)) => records_eq(x, y),
        _ => false,
    }
}

/// Equality of two field lists, field by field.
pub open spec fn fields_eq(a: Seq<FieldModel>, b: Seq<FieldModel>) -> bool
    decreases a, 0int,
{
    if a.len() == 0 {
        b.len() == 0
    } else {
        b.len() > 0 && a[0].fid == b[0].fid && model_eq(a[0].value, b[0].value) && fields_eq(
            a.subrange(1, a.len() as int),
            b.subrange(1, b.len() as int),
        )
    }
}

/// Equality of two record lists, record by record.
pub open spec fn records_eq(a: Seq<Seq<FieldModel>>, b: Seq<Seq<FieldModel>>) -> bool
    decreases a, 0int,
{
    if a.len() == 0 {
        b.len() == 0
    } else {
        b.len() > 0 && fields_eq(a[0], b[0]) && records_eq(a.subrange(1, a.len() as int), b.subrange(1, b.len() as int))
    }
}

/// Equality of two doubles given by their bits.
fn float_eq(a: u64, b: u64) -> (r: bool)
    ensures
        r == float_bits_eq(a, b),
{
    let a_nan = (a >> 52u64) & 0x7FFu64 == 0x7FFu64 && a & 0xF_FFFF_FFFF_FFFFu64 != 0;
    let b_nan = (b >> 52u64) & 0x7FFu64 == 0x7FFu64 && b & 0xF_FFFF_FFFF_FFFFu64 != 0;
    let zeros = a & 0x7FFF_FFFF_FFFF_FFFFu64 == 0 && b & 0x7FFF_FFFF_FFFF_FFFFu64 == 0;
    !a_nan && !b_nan && (a == b || zeros)
}

/// Equality of two string lists.
fn strings_eq(a: &Vec<String>, b: &Vec<String>) -> (r: bool)
    ensures
        r == (strings_model(a@) == strings_model(b@)),
{
    if a.len() != b.len() {
        assert(strings_model(a@).len() != strings_model(b@).len());
        return false;
    }
    let mut i: usize = 0;
    while i < a.len()
        invariant
            i <= a@.len(),
            a@.len() == b@.len(),
            forall|j: int| 0 <= j < i ==> a@[j]@ == b@[j]@,
        decreases a.len() - i,
    {
        if a[i] != b[i] {
            assert(strings_model(a@)[i as int] != strings_model(b@)[i as int]);
            return false;
        }
        i = i + 1;
    }
    assert(strings_model(a@) =~= strings_model(b@));
    true
}

/// Equality of two values, floats compared as numbers.
fn values_eq(a: &LnmpValue, b: &LnmpValue) -> (r: bool)
    ensures
        r == model_eq(a@, b@),
    decreases vsize(a@), 1nat,
{
    match (a, b) {
        (LnmpValue::Int(x), LnmpValue::Int(y)) => *x == *y,
        (LnmpValue::Float(x), LnmpValue::Float(y)) => float_eq(*x, *y),
        (LnmpValue::Bool(x), LnmpValue::Bool(y)) => *x == *y,
        (LnmpValue::String(x), LnmpValue::String(y)) => *x == *y,
        (LnmpValue::StringArray(x), LnmpValue::StringArray(y)) => strings_eq(x, y),
        (LnmpValue::NestedRecord(x), LnmpValue::NestedRecord(y)) => field_lists_eq(&x.fields, &y.fields),
        (LnmpValue::NestedArray(x), LnmpValue::NestedArray(y)) => record_lists_eq(x, y),
        _ => false,
    }
}

/// Equality of two field lists.
pub(crate) fn field_lists_eq(a: &Vec<LnmpField>, b: &Vec<LnmpField>) -> (r: bool)
    ensures
        r == fields_eq(fields_model(a@), fields_model(b@)),
    decreases fsize(fields_model(a@)), 0nat,
{
    proof {
        lemma_fields_model(a@);
        lemma_fields_model(b@);
    }
    let ghost fa = fields_model(a@);
    let ghost fb = fields_model(b@);
    let mut i: usize = 0;
    assert(fa.subrange(0, fa.len() as int) =~= fa);
    assert(fb.subrange(0, fb.len() as int) =~= fb);
    while i < a.len()
        invariant
            i <= a@.len(),
            fa == fields_model(a@),
            fb == fields_model(b@),
            fa.len() == a@.len(),
            fb.len() == b@.len(),
            forall|j: int| 0 <= j < fa.len() ==> #[trigger] fa[j] == a@[j]@,
            forall|j: int| 0 <= j < fb.len() ==> #[trigger] fb[j] == b@[j]@,
            i <= b@.len(),
            fields_eq(fa, fb) == fields_eq(fa.subrange(i as int, fa.len() as int), fb.subrange(i as int, fb.len() as int)),
        decreases a.len() - i,
    {
        let ghost sa = fa.subrange(i as int, fa.len() as int);
        let ghost sb = fb.subrange(i as int, fb.len() as int);
        if i >= b.len() {
            assert(sb.len() == 0 && sa.len() > 0);
            return false;
        }
        proof {
            lemma_fsize_member(fa, i as int);
            assert(sa[0] == fa[i as int]);
            assert(sb[0] == fb[i as int]);
            assert(sa.subrange(1, sa.len() as int) =~= fa.subrange(i + 1, fa.len() as int));
            assert(sb.subrange(1, sb.len() as int) =~= fb.subrange(i + 1, fb.len() as int));
        }
        if a[i].fid != b[i].fid {
            return false;
        }
        if !values_eq(&a[i].value, &b[i].value) {
            return false;
        }
        i = i + 1;
    }
    let ghost sb = fb.subrange(i as int, fb.len() as int);
    assert(fa.subrange(i as int, fa.len() as int).len() == 0);
    b.len() == i
}

/// Equality of two record lists.
fn record_lists_eq(a: &Vec<LnmpRecord>, b: &Vec<LnmpRecord>) -> (r: bool)
    ensures
        r == records_eq(crate::record::records_model(a@), crate::record::records_model(b@)),
    decreases rsize(crate::record::records_model(a@)), 0nat,
{
    proof {
        crate::record::lemma_records_model(a@);
        crate::record::lemma_records_model(b@);
    }
    let ghost ra = crate::record::records_model(a@);
    let ghost rb = crate::record::records_model(b@);
    let mut i: usize = 0;
    assert(ra.subrange(0, ra.len() as int) =~= ra);
    assert(rb.subrange(0, rb.len() as int) =~= rb);
    while i < a.len()
        invariant
            i <= a@.len(),
            ra == crate::record::records_model(a@),
            rb == crate::record::records_model(b@),
            ra.len() == a@.len(),
            rb.len() == b@.len(),
            forall|j: int| 0 <= j < ra.len() ==> #[trigger] ra[j] == a@[j]@,
            forall|j: int| 0 <= j < rb.len() ==> #[trigger] rb[j] == b@[j]@,
            i <= b@.len(),
            records_eq(ra, rb) == records_eq(ra.subrange(i as int, ra.len() as int), rb.subrange(i as int, rb.len() as int)),
        decreases a.len() - i,
    {
        let ghost sa = ra.subrange(i as int, ra.len() as int);
        let ghost sb = rb.subrange(i as int, rb.len() as int);
        if i >= b.len() {
            assert(sb.len() == 0 && sa.len() > 0);
            return false;
        }
        proof {
            lemma_rsize_member(ra, i as int);
            assert(sa[0] == ra[i as int]);
            assert(sb[0] == rb[i as int]);
            assert(sa.subrange(1, sa.len() as int) =~= ra.subrange(i + 1, ra.len() as int));
            assert(sb.subrange(1, sb.len() as int) =~= rb.subrange(i + 1, rb.len() as int));
        }
        if !field_lists_eq(&a[i].fields, &b[i].fields) {
            return false;
        }
        i = i + 1;
    }
    assert(ra.subrange(i as int, ra.len() as int).len() == 0);
    b.len() == i
}

/// Some field of `fs` has identifier `f`.
pub open spec fn has_fid(fs: Seq<FieldModel>, f: u16) -> bool {
    exists|j: int| 0 <= j < fs.len() && fs[j].fid == f
}

/// The identifiers present in either field list, in increasing order.
pub open spec fn union_fids(old: Seq<FieldModel>, new: Seq<FieldModel>) -> Seq<u16> {
    Seq::new(65536, |i: int| i as u16).filter(|f: u16| has_fid(old, f) || has_fid(new, f))
}

/// The first field with identifier `f` is one of the fields.
pub proof fn lemma_first_member(fs: Seq<FieldModel>, f: u16)
    ensures
        first_with_fid(fs, f) matches Some(x) ==> exists|i: int| 0 <= i < fs.len() && fs[i] == x,
        first_with_fid(fs, f) is Some <==> has_fid(fs, f),
        first_with_fid(fs, f) matches Some(x) ==> x.fid == f,
    decreases fs.len(),
{
    if fs.len() > 0 && fs[0].fid != f {
        let tl = fs.drop_first();
        lemma_first_member(tl, f);
        if let Some(x) = first_with_fid(tl, f) {
            let i = choose|i: int| 0 <= i < tl.len() && tl[i] == x;
            assert(fs[i + 1] == x);
        }
        if has_fid(fs, f) {
            let j = choose|j: int| 0 <= j < fs.len() && fs[j].fid == f;
            assert(tl[j - 1].fid == f);
        }
        if has_fid(tl, f) {
            let j = choose|j: int| 0 <= j < tl.len() && tl[j].fid == f;
            assert(fs[j + 1].fid == f);
        }
    }
}

/// Payload that carries a value: its tag, then its wire form.
pub open spec fn value_payload(v: ValueModel) -> Seq<u8> {
    seq![tag_byte(model_tag(v))] + flat_payload(v)
}

/// Operations turning `old` into `new`, for the identifiers of `fids` in order.
pub open spec fn diff_at(old: Seq<FieldModel>, new: Seq<FieldModel>, fids: Seq<u16>) -> Seq<OpModel>
    decreases fsize(old) + fsize(new), 0nat, fids.len(),
{
    if fids.len() == 0 {
        Seq::empty()
    } else {
        let f = fids[0];
        let rest = diff_at(old, new, fids.drop_first());
        match (first_with_fid(old, f), first_with_fid(new, f)) {
            (None, Some(n)) => seq![OpModel { target_fid: f, operation: DeltaOperation::SetField, payload: value_payload(n.value) }]
                + rest,
            (Some(_), None) => seq![OpModel { target_fid: f, operation: DeltaOperation::DeleteField, payload: Seq::empty() }]
                + rest,
            (Some(o), Some(n)) => if model_eq(o.value, n.value) {
                rest
            } else {
                match (o.value, n.value) {
                    (ValueModel::Record(ofs), ValueModel::Record(nfs)) => {
                        proof {
                            lemma_first_member(old, f);
                            lemma_first_member(new, f);
                            let i = choose|i: int| 0 <= i < old.len() && old[i] == o;
                            let j = choose|j: int| 0 <= j < new.len() && new[j] == n;
                            lemma_fsize_member(old, i);
                            lemma_fsize_member(new, j);
                        }
                        seq![OpModel {
                            target_fid: f,
                            operation: DeltaOperation::MergeRecord,
                            payload: nested_ops_wire(diff_fields(ofs, nfs)),
                        }] + rest
                    },
                    _ => seq![OpModel { target_fid: f, operation: DeltaOperation::UpdateField, payload: value_payload(n.value) }]
                        + rest,
                }
            },
            (None, None) => rest,
        }
    }
}

/// Operations turning `old` into `new`: for each identifier present in
/// either, in increasing order, a set for an added field, a delete for a
/// removed one, a merge for a changed nested record and an update for
/// another changed value (the first field with each identifier counts).
pub open spec fn diff_fields(old: Seq<FieldModel>, new: Seq<FieldModel>) -> Seq<OpModel>
    decreases fsize(old) + fsize(new), 1nat, 0nat,
{
    diff_at(old, new, union_fids(old, new))
}

/// Every value that the operations turning `old` into `new` must carry is a
/// flat value whose lengths fit a varint (nested values other than merged
/// records cannot be written into an operation).
pub open spec fn diff_ok_at(old: Seq<FieldModel>, new: Seq<FieldModel>, fids: Seq<u16>) -> bool
    decreases fsize(old) + fsize(new), 0nat, fids.len(),
{
    if fids.len() == 0 {
        true
    } else {
        let f = fids[0];
        let rest = diff_ok_at(old, new, fids.drop_first());
        match (first_with_fid(old, f), first_with_fid(new, f)) {
            (None, Some(n)) => is_flat(n.value) && value_fits(n.value) && rest,
            (Some(o), Some(n)) => if model_eq(o.value, n.value) {
                rest
            } else {
                match (o.value, n.value) {
                    (ValueModel::Record(ofs), ValueModel::Record(nfs)) => {
                        proof {
                            lemma_first_member(old, f);
                            lemma_first_member(new, f);
                            let i = choose|i: int| 0 <= i < old.len() && old[i] == o;
                            let j = choose|j: int| 0 <= j < new.len() && new[j] == n;
                            lemma_fsize_member(old, i);
                            lemma_fsize_member(new, j);
                        }
                        diff_ok(ofs, nfs) && rest
                    },
                    _ => is_flat(n.value) && value_fits(n.value) && rest,
                }
            },
            _ => rest,
        }
    }
}

/// Every value that the operations turning `old` into `new` must carry can
/// be written.
pub open spec fn diff_ok(old: Seq<FieldModel>, new: Seq<FieldModel>) -> bool
    decreases fsize(old) + fsize(new), 1nat, 0nat,
{
    diff_ok_at(old, new, union_fids(old, new))
}

/// The identifiers present in either record, in increasing order.
fn union_of(old: &LnmpRecord, new: &LnmpRecord) -> (r: Vec<u16>)
    ensures
        r@ == union_fids(old@, new@),
{
    proof {
        lemma_fields_model(old.fields@);
        lemma_fields_model(new.fields@);
    }
    let ghost pred = |f: u16| has_fid(old@, f) || has_fid(new@, f);
    let mut seen: Vec<bool> = vec![false; 65536];
    let mut i: usize = 0;
    while i < old.fields.len()
        invariant
            i <= old.fields@.len(),
            seen@.len() == 65536,
            old@ == fields_model(old.fields@),
            old@.len() == old.fields@.len(),
            forall|j: int| 0 <= j < old@.len() ==> #[trigger] old@[j] == old.fields@[j]@,
            forall|f: u16| #[trigger] seen@[f as int] == exists|j: int| 0 <= j < i && old@[j].fid == f,
        decreases old.fields.len() - i,
    {
        let f = old.fields[i].fid;
        seen.set(f as usize, true);
        proof {
            assert(old@[i as int].fid == f);
            assert forall|g: u16| #[trigger] seen@[g as int] == exists|j: int| 0 <= j < i + 1 && old@[j].fid == g by {
                if g == f {
                    assert(old@[i as int].fid == g);
                } else {
                    if exists|j: int| 0 <= j < i + 1 && old@[j].fid == g {
                        let j = choose|j: int| 0 <= j < i + 1 && old@[j].fid == g;
                        assert(j < i);
                    }
                }
            }
        }
        i = i + 1;
    }
    let mut i: usize = 0;
    while i < new.fields.len()
        invariant
            i <= new.fields@.len(),
            seen@.len() == 65536,
            old@.len() == old.fields@.len(),
            new@ == fields_model(new.fields@),
            new@.len() == new.fields@.len(),
            forall|j: int| 0 <= j < new@.len() ==> #[trigger] new@[j] == new.fields@[j]@,
            forall|f: u16| #[trigger] seen@[f as int] == (has_fid(old@, f) || exists|j: int| 0 <= j < i && new@[j].fid == f),
        decreases new.fields.len() - i,
    {
        let f = new.fields[i].fid;
        seen.set(f as usize, true);
        proof {
            assert(new@[i as int].fid == f);
            assert forall|g: u16| #[trigger] seen@[g as int] == (has_fid(old@, g) || exists|j: int| 0 <= j < i + 1 && new@[j].fid == g) by {
                if g == f {
                    assert(new@[i as int].fid == g);
                } else {
                    if exists|j: int| 0 <= j < i + 1 && new@[j].fid == g {
                        let j = choose|j: int| 0 <= j < i + 1 && new@[j].fid == g;
                        assert(j < i);
                    }
                }
            }
        }
        i = i + 1;
    }
    let ghost all = Seq::new(65536, |i: int| i as u16);
    let mut out: Vec<u16> = Vec::new();
    let mut k: usize = 0;
    assert(all.take(0) =~= Seq::<u16>::empty());
    while k < 65536
        invariant
            k <= 65536,
            seen@.len() == 65536,
            all == Seq::new(65536, |i: int| i as u16),
            forall|f: u16| #[trigger] seen@[f as int] == pred(f),
            out@ == all.take(k as int).filter(pred),
        decreases 65536 - k,
    {
        proof {
            assert(all.take(k + 1) =~= all.take(k as int).push(k as u16));
            all.take(k as int).lemma_filter_push(k as u16, pred);
            assert(seen@[(k as u16) as int] == pred(k as u16));
        }
        if seen[k] {
            out.push(k as u16);
        }
        k = k + 1;
    }
    assert(all.take(65536) =~= all);
    out
}

/// The payload carrying a flat value: its tag, then its wire form.
fn encode_value(value: &LnmpValue) -> (r: Vec<u8>)
    requires
        is_flat(value@),
        value_fits(value@),
    ensures
        r@ == value_payload(value@),
{
    let binary_value = match BinaryValue::from_lnmp_value(value) {
        Ok(b) => b,
        Err(_) => {
            assert(false);
            return Vec::new();
        },
    };
    let entry = BinaryEntry::new(0, binary_value);
    let full = entry.encode();
    let mut out: Vec<u8> = Vec::new();
    append_bytes(&mut out, vstd::slice::slice_subrange(full.as_slice(), 2, full.len()));
    assert(out@ =~= value_payload(value@));
    out
}

impl DeltaEncoder {
    /// The operations turning `old` into `new`; refused when delta encoding
    /// is disabled.
    pub fn compute_delta(&self, old: &LnmpRecord, new: &LnmpRecord) -> (r: Result<Vec<DeltaOp>, DeltaError>)
        requires
            self.config.enable_delta ==> diff_ok(old@, new@),
        ensures
            !self.config.enable_delta ==> ops_result(r) == Err::<Seq<OpModel>, DeltaErrorModel>(disabled_error()),
            self.config.enable_delta ==> ops_result(r) == Ok::<Seq<OpModel>, DeltaErrorModel>(diff_fields(old@, new@)),
    {
        if !self.config.enable_delta {
            return Err(DeltaError::DeltaApplicationFailed { reason: string_of("Delta is disabled in configuration") });
        }
        Ok(self.diff_records(old, new))
    }

    /// The operations turning `old` into `new`.
    fn diff_records(&self, old: &LnmpRecord, new: &LnmpRecord) -> (r: Vec<DeltaOp>)
        requires
            diff_ok(old@, new@),
        ensures
            ops_model(r@) == diff_fields(old@, new@),
        decreases fsize(old@) + fsize(new@), 1nat, 0nat,
    {
        let fids = union_of(old, new);
        let ghost all = fids@;
        let mut ops: Vec<DeltaOp> = Vec::new();
        let mut i: usize = 0;
        assert(ops_model(ops@) =~= Seq::<OpModel>::empty());
        assert(all.subrange(0, all.len() as int) =~= all);
        while i < fids.len()
            invariant
                i <= fids@.len(),
                all == fids@,
                all == union_fids(old@, new@),
                diff_ok(old@, new@),
                diff_fields(old@, new@) == ops_model(ops@) + diff_at(old@, new@, all.subrange(i as int, all.len() as int)),
                diff_ok_at(old@, new@, all.subrange(i as int, all.len() as int)),
            decreases fids.len() - i,
        {
            let f = fids[i];
            let ghost sub = all.subrange(i as int, all.len() as int);
            assert(sub[0] == f);
            assert(sub.drop_first() =~= all.subrange(i + 1, all.len() as int));
            let ghost acc = ops_model(ops@);
            let old_field = old.get_field(f);
            let new_field = new.get_field(f);
            match (old_field, new_field) {
                (None, Some(n)) => {
                    let payload = encode_value(&n.value);
                    ops.push(DeltaOp::new(f, DeltaOperation::SetField, payload));
                },
                (Some(_), None) => {
                    ops.push(DeltaOp::new(f, DeltaOperation::DeleteField, Vec::new()));
                },
                (Some(o), Some(n)) => {
                    if !values_eq(&o.value, &n.value) {
                        match (&o.value, &n.value) {
                            (LnmpValue::NestedRecord(orec), LnmpValue::NestedRecord(nrec)) => {
                                proof {
                                    lemma_first_member(old@, f);
                                    lemma_first_member(new@, f);
                                    let a = choose|a: int| 0 <= a < old@.len() && old@[a] == o@;
                                    let c = choose|c: int| 0 <= c < new@.len() && new@[c] == n@;
                                    lemma_fsize_member(old@, a);
                                    lemma_fsize_member(new@, c);
                                }
                                let nested = self.diff_records(orec, nrec);
                                let payload = match self.encode_nested_ops(nested.as_slice()) {
                                    Ok(p) => p,
                                    Err(_) => Vec::new(),
                                };
                                ops.push(DeltaOp::new(f, DeltaOperation::MergeRecord, payload));
                            },
                            _ => {
                                let payload = encode_value(&n.value);
                                ops.push(DeltaOp::new(f, DeltaOperation::UpdateField, payload));
                            },
                        }
                    }
                },
                (None, None) => {},
            }
            proof {
                let rest = diff_at(old@, new@, all.subrange(i + 1, all.len() as int));
                assert(ops_model(ops@) + rest =~= acc + diff_at(old@, new@, sub));
            }
            i = i + 1;
        }
        assert(diff_at(old@, new@, all.subrange(all.len() as int, all.len() as int)) =~= Seq::<OpModel>::empty());
        assert(ops_model(ops@) + Seq::<OpModel>::empty() =~= ops_model(ops@));
        ops
    }
}

/// Total length of the payloads of some operations.
pub open spec fn payload_sum(ops: Seq<OpModel>) -> nat
    decreases ops.len(),
{
    if ops.len() == 0 {
        0
    } else {
        ops[0].payload.len() + payload_sum(ops.drop_first())
    }
}

/// Operations read from bytes carry no more payload than the bytes they take.
pub proof fn lemma_parse_ops_bounds(b: Seq<u8>, off: int, k: nat, nested: bool)
    requires
        0 <= off <= b.len(),
    ensures
        parse_ops(b, off, k, nested) matches Ok((ops, e)) ==> off <= e <= b.len() && payload_sum(ops) + 3 * ops.len() <= e - off,
    decreases k,
{
    if k > 0 {
        lemma_varint_len(b.subrange(off, b.len() as int), 0);
        if let Some((f, n)) = varint_parse(b.subrange(off, b.len() as int)) {
            let p = off + n + 1;
            if p <= b.len() {
                lemma_varint_len(b.subrange(p, b.len() as int), 0);
                if let Some((l, m)) = varint_parse(b.subrange(p, b.len() as int)) {
                    let start = p + m;
                    let lu = ((l as i64) as usize) as int;
                    if l >= 0 && start + lu <= b.len() {
                        lemma_parse_ops_bounds(b, start + lu, (k - 1) as nat, nested);
                        if let Ok((rest, e2)) = parse_ops(b, start + lu, (k - 1) as nat, nested) {
                            if let Ok((ops, e)) = parse_ops(b, off, k, nested) {
                                assert(ops.drop_first() =~= rest);
                                assert(ops[0].payload.len() == lu);
                            }
                        }
                    }
                }
            }
        }
    }
}

/// Nested operations carry less payload than the bytes they were read from.
pub proof fn lemma_nested_ops_smaller(b: Seq<u8>)
    ensures
        parse_nested_ops(b) matches Ok(ops) ==> payload_sum(ops) < b.len(),
{
    lemma_varint_len(b, 0);
    if let Some((c, n)) = varint_parse(b) {
        if c >= 0 {
            assert(b.subrange(0, b.len() as int) =~= b);
            lemma_parse_ops_bounds(b, n as int, ((c as i64) as usize) as nat, true);
        }
    }
}

/// Each payload is part of the total.
pub proof fn lemma_payload_member(ops: Seq<OpModel>, i: int)
    requires
        0 <= i < ops.len(),
    ensures
        ops[i].payload.len() <= payload_sum(ops),
    decreases ops.len(),
{
    if i > 0 {
        lemma_payload_member(ops.drop_first(), i - 1);
    }
}

/// The fields without those with identifier `f`.
pub open spec fn without_fid(fs: Seq<FieldModel>, f: u16) -> Seq<FieldModel> {
    fs.filter(|x: FieldModel| x.fid != f)
}

/// The value a payload carries.
pub open spec fn payload_value(p: Seq<u8>) -> Result<ValueModel, DeltaErrorModel> {
    if p.len() == 0 {
        Err(DeltaErrorModel::DeltaApplicationFailed { reason: "Empty value payload"@ })
    } else {
        match parse_entry(seq![0u8, 0u8] + p) {
            Ok((_, _, v, _)) => Ok(v),
            Err(e) => Err(DeltaErrorModel::Binary { source: e }),
        }
    }
}

/// Applies operations one after another to `base`: the fields at the end,
/// and the error at the first operation that fails (the operations before it
/// stay applied).
pub open spec fn apply_list(base: Seq<FieldModel>, ops: Seq<OpModel>) -> (Seq<FieldModel>, Result<(), DeltaErrorModel>)
    decreases payload_sum(ops), ops.len(),
{
    if ops.len() == 0 {
        (base, Ok(()))
    } else {
        let op = ops[0];
        let f = op.target_fid;
        let step: Result<Seq<FieldModel>, DeltaErrorModel> = match op.operation {
            DeltaOperation::SetField => match payload_value(op.payload) {
                Err(e) => Err(e),
                Ok(v) => Ok(without_fid(base, f).push(FieldModel { fid: f, value: v })),
            },
            DeltaOperation::DeleteField => Ok(without_fid(base, f)),
            DeltaOperation::UpdateField => if first_with_fid(base, f) is None {
                Err(DeltaErrorModel::InvalidTargetFid { fid: f })
            } else {
                match payload_value(op.payload) {
                    Err(e) => Err(e),
                    Ok(v) => Ok(without_fid(base, f).push(FieldModel { fid: f, value: v })),
                }
            },
            DeltaOperation::MergeRecord => match first_with_fid(base, f) {
                None => Err(DeltaErrorModel::InvalidTargetFid { fid: f }),
                Some(x) => match x.value {
                    ValueModel::Record(fs) => match parse_nested_ops(op.payload) {
                        Err(e) => Err(e),
                        Ok(nested) => {
                            proof {
                                lemma_nested_ops_smaller(op.payload);
                            }
                            let (fs2, r) = apply_list(fs, nested);
                            match r {
                                Err(e) => Err(e),
                                Ok(()) => Ok(without_fid(base, f).push(FieldModel { fid: f, value: ValueModel::Record(fs2) })),
                            }
                        },
                    },
                    _ => Err(DeltaErrorModel::MergeConflict { fid: f, reason: "Target field is not a nested record"@ }),
                },
            },
        };
        match step {
            Err(e) => (base, Err(e)),
            Ok(b2) => apply_list(b2, ops.drop_first()),
        }
    }
}

/// Model of a result with nothing in it.
pub open spec fn unit_result(r: Result<(), DeltaError>) -> Result<(), DeltaErrorModel> {
    match r {
        Ok(()) => Ok(()),
        Err(e) => Err(e@),
    }
}

impl DeltaDecoder {
    /// The value that a payload carries.
    fn decode_value(&self, payload: &[u8]) -> (r: Result<LnmpValue, DeltaError>)
        ensures
            match r {
                Ok(v) => payload_value(payload@) == Ok::<ValueModel, DeltaErrorModel>(v@),
                Err(e) => payload_value(payload@) == Err::<ValueModel, DeltaErrorModel>(e@),
            },
    {
        if payload.len() == 0 {
            return Err(DeltaError::DeltaApplicationFailed { reason: string_of("Empty value payload") });
        }
        let mut entry_bytes: Vec<u8> = Vec::new();
        entry_bytes.push(0x00);
        entry_bytes.push(0x00);
        append_bytes(&mut entry_bytes, payload);
        assert(entry_bytes@ =~= seq![0u8, 0u8] + payload@);
        match BinaryEntry::decode(entry_bytes.as_slice()) {
            Ok((entry, _)) => Ok(entry.value.to_lnmp_value()),
            Err(e) => Err(DeltaError::BinaryError { source: e }),
        }
    }

    /// Applies operations one after another to `base`; refused when delta
    /// encoding is disabled. Set and update replace every field with the
    /// target identifier by one at the end; delete removes them; a merge
    /// applies nested operations to the nested record of the target field.
    /// Update and merge need the target field. On an error, the operations
    /// before the failing one stay applied.
    pub fn apply_delta(&self, base: &mut LnmpRecord, ops: &[DeltaOp]) -> (r: Result<(), DeltaError>)
        ensures
            !self.config.enable_delta ==> final(base)@ == old(base)@ && unit_result(r) == Err::<(), DeltaErrorModel>(disabled_error()),
            self.config.enable_delta ==> (final(base)@, unit_result(r)) == apply_list(old(base)@, ops_model(ops@)),
    {
        if !self.config.enable_delta {
            return Err(DeltaError::DeltaApplicationFailed { reason: string_of("Delta is disabled in configuration") });
        }
        self.apply_ops(base, ops)
    }

    /// Applies operations one after another to `base`.
    fn apply_ops(&self, base: &mut LnmpRecord, ops: &[DeltaOp]) -> (r: Result<(), DeltaError>)
        ensures
            (final(base)@, unit_result(r)) == apply_list(old(base)@, ops_model(ops@)),
        decreases payload_sum(ops_model(ops@)), 0nat,
    {
        let ghost all = ops_model(ops@);
        let n = ops.len();
        let mut i: usize = 0;
        assert(all.subrange(0, n as int) =~= all);
        while i < n
            invariant
                n == ops@.len(),
                all == ops_model(ops@),
                i <= n,
                apply_list(old(base)@, all) == apply_list(base@, all.subrange(i as int, n as int)),
            decreases n - i,
        {
            let op = &ops[i];
            let f = op.target_fid;
            let ghost sub = all.subrange(i as int, n as int);
            let ghost before = base@;
            assert(sub[0] == op@);
            assert(sub.drop_first() =~= all.subrange(i + 1, n as int));
            match op.operation {
                DeltaOperation::UpdateField | DeltaOperation::MergeRecord => {
                    if base.get_field(f).is_none() {
                        return Err(DeltaError::InvalidTargetFid { fid: f });
                    }
                },
                _ => {},
            }
            match op.operation {
                DeltaOperation::SetField | DeltaOperation::UpdateField => {
                    let value = match self.decode_value(op.payload.as_slice()) {
                        Ok(v) => v,
                        Err(e) => return Err(e),
                    };
                    base.remove_field(f);
                    base.add_field(LnmpField { fid: f, value });
                },
                DeltaOperation::DeleteField => {
                    base.remove_field(f);
                },
                DeltaOperation::MergeRecord => {
                    let existing = match base.get_field(f) {
                        Some(x) => x,
                        None => return Err(DeltaError::InvalidTargetFid { fid: f }),
                    };
                    let rec_copy = match &existing.value {
                        LnmpValue::NestedRecord(rec) => rec.copy(),
                        _ => {
                            return Err(
                                DeltaError::MergeConflict {
                                    fid: f,
                                    reason: string_of("Target field is not a nested record"),
                                },
                            );
                        },
                    };
                    let nested = match self.decode_nested_ops(op.payload.as_slice()) {
                        Ok(v) => v,
                        Err(e) => return Err(e),
                    };
                    proof {
                        lemma_nested_ops_smaller(op.payload@);
                        lemma_payload_member(all, i as int);
                    }
                    let mut updated = rec_copy;
                    match self.apply_ops(&mut updated, nested.as_slice()) {
                        Ok(()) => {},
                        Err(e) => return Err(e),
                    }
                    base.remove_field(f);
                    base.add_field(LnmpField { fid: f, value: LnmpValue::NestedRecord(Box::new(updated)) });
                },
            }
            i = i + 1;
        }
        assert(all.subrange(n as int, n as int) =~= Seq::<OpModel>::empty());
        Ok(())
    }
}

} // verus!
