use vstd::prelude::*;
use crate::error::{LnmpError, error_text};
use crate::numfmt::{decimal, hex_digits, push_str, push_decimal, push_hex};

verus! {

/// Error type for binary format operations.
#[allow(inconsistent_fields)]
#[derive(Debug, Clone, PartialEq)]
pub enum BinaryError {
    /// Unsupported protocol version.
    UnsupportedVersion {
        /// Version byte that was found.
        found: u8,
        /// Supported versions.
        supported: Vec<u8>,
    },
    /// Invalid field identifier.
    InvalidFID {
        /// The offending identifier.
        fid: u16,
        /// Why it is invalid.
        reason: String,
    },
    /// Invalid type tag.
    InvalidTypeTag {
        /// The type tag byte.
        tag: u8,
    },
    /// Invalid value data.
    InvalidValue {
        /// Field where the error occurred.
        field_id: u16,
        /// Type tag of the value.
        type_tag: u8,
        /// Why the value is invalid.
        reason: String,
    },
    /// Bytes left over after a frame.
    TrailingData {
        /// Number of bytes remaining.
        bytes_remaining: usize,
    },
    /// Canonical form violation.
    CanonicalViolation {
        /// Description of the violation.
        reason: String,
    },
    /// The input ended too early.
    UnexpectedEof {
        /// Number of bytes expected.
        expected: usize,
        /// Number of bytes found.
        found: usize,
    },
    /// Invalid VarInt encoding.
    InvalidVarInt {
        /// Why the VarInt is invalid.
        reason: String,
    },
    /// Invalid UTF-8 in a string.
    InvalidUtf8 {
        /// Field where the error occurred.
        field_id: u16,
    },
    /// Error from the text format.
    TextFormatError {
        /// The underlying text error.
        source: LnmpError,
    },
    /// Nesting depth exceeded.
    NestingDepthExceeded {
        /// Depth reached.
        depth: usize,
        /// Maximum allowed depth.
        max: usize,
    },
    /// Nested structures are not allowed by the configuration.
    NestedStructureNotSupported,
    /// Record size exceeded.
    RecordSizeExceeded {
        /// Size in bytes.
        size: usize,
        /// Maximum allowed size.
        max: usize,
    },
    /// Invalid nested structure.
    InvalidNestedStructure {
        /// Why the structure is invalid.
        reason: String,
    },
    /// Delta encoder or decoder failure.
    DeltaError {
        /// Description of the failure.
        reason: String,
    },
    /// A configured feature that the encoder does not provide.
    UnsupportedFeature {
        /// The feature.
        feature: String,
    },
}

/// Mathematical model of a binary error: strings by their characters.
#[allow(inconsistent_fields)]
pub enum BinaryErrorModel {
    UnsupportedVersion { found: u8, supported: Seq<u8> },
    InvalidFID { fid: u16, reason: Seq<char> },
    InvalidTypeTag { tag: u8 },
    InvalidValue { field_id: u16, type_tag: u8, reason: Seq<char> },
    TrailingData { bytes_remaining: nat },
    CanonicalViolation { reason: Seq<char> },
    UnexpectedEof { expected: nat, found: nat },
    InvalidVarInt { reason: Seq<char> },
    InvalidUtf8 { field_id: u16 },
    TextFormatError { source: LnmpError },
    NestingDepthExceeded { depth: nat, max: nat },
    NestedStructureNotSupported,
    RecordSizeExceeded { size: nat, max: nat },
    InvalidNestedStructure { reason: Seq<char> },
    DeltaError { reason: Seq<char> },
    UnsupportedFeature { feature: Seq<char> },
}

impl View for BinaryError {
    type V = BinaryErrorModel;

    open spec fn view(&self) -> BinaryErrorModel {
        match self {
            BinaryError::UnsupportedVersion { found, supported } => BinaryErrorModel::UnsupportedVersion {
                found: *found,
                supported: supported@,
            },
            BinaryError::InvalidFID { fid, reason } => BinaryErrorModel::InvalidFID {
                fid: *fid,
                reason: reason@,
            },
            BinaryError::InvalidTypeTag { tag } => BinaryErrorModel::InvalidTypeTag { tag: *tag },
            BinaryError::InvalidValue { field_id, type_tag, reason } => BinaryErrorModel::InvalidValue {
                field_id: *field_id,
                type_tag: *type_tag,
                reason: reason@,
            },
            BinaryError::TrailingData { bytes_remaining } => BinaryErrorModel::TrailingData {
                bytes_remaining: *bytes_remaining as nat,
            },
            BinaryError::CanonicalViolation { reason } => BinaryErrorModel::CanonicalViolation {
                reason: reason@,
            },
            BinaryError::UnexpectedEof { expected, found } => BinaryErrorModel::UnexpectedEof {
                expected: *expected as nat,
                found: *found as nat,
            },
            BinaryError::InvalidVarInt { reason } => BinaryErrorModel::InvalidVarInt { reason: reason@ },
            BinaryError::InvalidUtf8 { field_id } => BinaryErrorModel::InvalidUtf8 { field_id: *field_id },
            BinaryError::TextFormatError { source } => BinaryErrorModel::TextFormatError { source: *source },
            BinaryError::NestingDepthExceeded { depth, max } => BinaryErrorModel::NestingDepthExceeded {
                depth: *depth as nat,
                max: *max as nat,
            },
            BinaryError::NestedStructureNotSupported => BinaryErrorModel::NestedStructureNotSupported,
            BinaryError::RecordSizeExceeded { size, max } => BinaryErrorModel::RecordSizeExceeded {
                size: *size as nat,
                max: *max as nat,
            },
            BinaryError::InvalidNestedStructure { reason } => BinaryErrorModel::InvalidNestedStructure {
                reason: reason@,
            },
            BinaryError::DeltaError { reason } => BinaryErrorModel::DeltaError { reason: reason@ },
            BinaryError::UnsupportedFeature { feature } => BinaryErrorModel::UnsupportedFeature {
                feature: feature@,
            },
        }
    }
}

/// "[a, b, c]": the bytes in decimal, as a list.
pub open spec fn byte_list(v: Seq<u8>) -> Seq<char> {
    "["@ + byte_items(v) + "]"@
}

/// The bytes in decimal, separated by ", ".
pub open spec fn byte_items(v: Seq<u8>) -> Seq<char>
    decreases v.len(),
{
    if v.len() == 0 {
        Seq::empty()
    } else if v.len() == 1 {
        decimal(v[0] as nat)
    } else {
        byte_items(v.drop_last()) + ", "@ + decimal(v.last() as nat)
    }
}

/// The message of a binary error.
pub open spec fn binary_error_text(e: BinaryError) -> Seq<char> {
    match e {
        BinaryError::UnsupportedVersion { found, supported } => "Unsupported version 0x"@
            + hex_digits(found as nat, 2) + ", supported versions: "@ + byte_list(supported@),
        BinaryError::InvalidFID { fid, reason } => "Invalid FID "@ + decimal(fid as nat) + ": "@
            + reason@,
        BinaryError::InvalidTypeTag { tag } => "Invalid type tag: 0x"@ + hex_digits(tag as nat, 2),
        BinaryError::InvalidValue { field_id, type_tag, reason } => "Invalid value for field "@
            + decimal(field_id as nat) + " (type tag 0x"@ + hex_digits(type_tag as nat, 2) + "): "@
            + reason@,
        BinaryError::TrailingData { bytes_remaining } => "Trailing data: "@ + decimal(
            bytes_remaining as nat,
        ) + " bytes remaining"@,
        BinaryError::CanonicalViolation { reason } => "Canonical form violation: "@ + reason@,
        BinaryError::UnexpectedEof { expected, found } => "Unexpected end of input: expected "@
            + decimal(expected as nat) + " bytes, found "@ + decimal(found as nat),
        BinaryError::InvalidVarInt { reason } => "Invalid VarInt: "@ + reason@,
        BinaryError::InvalidUtf8 { field_id } => "Invalid UTF-8 in field "@ + decimal(field_id as nat),
        BinaryError::TextFormatError { source } => "Text format error: "@ + error_text(source),
        BinaryError::NestingDepthExceeded { depth, max } => "Nesting depth exceeded: depth "@
            + decimal(depth as nat) + " exceeds maximum "@ + decimal(max as nat),
        BinaryError::NestedStructureNotSupported =>
            "Nested structures not supported in v0.4 binary format"@,
        BinaryError::RecordSizeExceeded { size, max } => "Record size exceeded: size "@ + decimal(
            size as nat,
        ) + " bytes exceeds maximum "@ + decimal(max as nat) + " bytes"@,
        BinaryError::InvalidNestedStructure { reason } => "Invalid nested structure: "@ + reason@,
        BinaryError::DeltaError { reason } => "Delta error: "@ + reason@,
        BinaryError::UnsupportedFeature { feature } => "Unsupported feature: "@ + feature@,
    }
}

/// Appends the bytes of `v` as a list.
fn push_byte_list(out: &mut String, v: &Vec<u8>)
    ensures
        final(out)@ == old(out)@ + byte_list(v@),
{
    push_str(out, "[");
    let ghost head = out@;
    let mut i: usize = 0;
    while i < v.len()
        invariant
            i <= v@.len(),
            out@ == head + byte_items(v@.take(i as int)),
        decreases v.len() - i,
    {
        if i > 0 {
            push_str(out, ", ");
        }
        push_decimal(out, v[i] as u64);
        proof {
            let t = v@.take(i + 1);
            assert(t.drop_last() =~= v@.take(i as int));
            if i == 0 {
                assert(t.len() == 1);
            }
            assert(out@ =~= head + byte_items(t));
        }
        i = i + 1;
    }
    assert(v@.take(v@.len() as int) =~= v@);
    push_str(out, "]");
    assert(out@ =~= old(out)@ + byte_list(v@));
}

impl BinaryError {
    /// The message of the error.
    pub fn message(&self) -> (s: String)
        ensures
            s@ == binary_error_text(*self),
    {
        let mut s = String::new();
        match self {
            BinaryError::UnsupportedVersion { found, supported } => {
                push_str(&mut s, "Unsupported version 0x");
                push_hex(&mut s, *found as u64, 2);
                push_str(&mut s, ", supported versions: ");
                push_byte_list(&mut s, supported);
            },
            BinaryError::InvalidFID { fid, reason } => {
                push_str(&mut s, "Invalid FID ");
                push_decimal(&mut s, *fid as u64);
                push_str(&mut s, ": ");
                push_str(&mut s, reason.as_str());
            },
            BinaryError::InvalidTypeTag { tag } => {
                push_str(&mut s, "Invalid type tag: 0x");
                push_hex(&mut s, *tag as u64, 2);
            },
            BinaryError::InvalidValue { field_id, type_tag, reason } => {
                push_str(&mut s, "Invalid value for field ");
                push_decimal(&mut s, *field_id as u64);
                push_str(&mut s, " (type tag 0x");
                push_hex(&mut s, *type_tag as u64, 2);
                push_str(&mut s, "): ");
                push_str(&mut s, reason.as_str());
            },
            BinaryError::TrailingData { bytes_remaining } => {
                push_str(&mut s, "Trailing data: ");
                push_decimal(&mut s, *bytes_remaining as u64);
                push_str(&mut s, " bytes remaining");
            },
            BinaryError::CanonicalViolation { reason } => {
                push_str(&mut s, "Canonical form violation: ");
                push_str(&mut s, reason.as_str());
            },
            BinaryError::UnexpectedEof { expected, found } => {
                push_str(&mut s, "Unexpected end of input: expected ");
                push_decimal(&mut s, *expected as u64);
                push_str(&mut s, " bytes, found ");
                push_decimal(&mut s, *found as u64);
            },
            BinaryError::InvalidVarInt { reason } => {
                push_str(&mut s, "Invalid VarInt: ");
                push_str(&mut s, reason.as_str());
            },
            BinaryError::InvalidUtf8 { field_id } => {
                push_str(&mut s, "Invalid UTF-8 in field ");
                push_decimal(&mut s, *field_id as u64);
            },
            BinaryError::TextFormatError { source } => {
                push_str(&mut s, "Text format error: ");
                let m = source.message();
                push_str(&mut s, m.as_str());
            },
            BinaryError::NestingDepthExceeded { depth, max } => {
                push_str(&mut s, "Nesting depth exceeded: depth ");
                push_decimal(&mut s, *depth as u64);
                push_str(&mut s, " exceeds maximum ");
                push_decimal(&mut s, *max as u64);
            },
            BinaryError::NestedStructureNotSupported => {
                push_str(&mut s, "Nested structures not supported in v0.4 binary format");
            },
            BinaryError::RecordSizeExceeded { size, max } => {
                push_str(&mut s, "Record size exceeded: size ");
                push_decimal(&mut s, *size as u64);
                push_str(&mut s, " bytes exceeds maximum ");
                push_decimal(&mut s, *max as u64);
                push_str(&mut s, " bytes");
            },
            BinaryError::InvalidNestedStructure { reason } => {
                push_str(&mut s, "Invalid nested structure: ");
                push_str(&mut s, reason.as_str());
            },
            BinaryError::DeltaError { reason } => {
                push_str(&mut s, "Delta error: ");
                push_str(&mut s, reason.as_str());
            },
            BinaryError::UnsupportedFeature { feature } => {
                push_str(&mut s, "Unsupported feature: ");
                push_str(&mut s, feature.as_str());
            },
        }
        proof {
            assert(s@ =~= binary_error_text(*self));
        }
        s
    }
}

impl From<LnmpError> for BinaryError {
    fn from(err: LnmpError) -> (r: Self) {
        BinaryError::TextFormatError { source: err }
    }
}

impl vstd::std_specs::convert::FromSpecImpl<LnmpError> for BinaryError {
    open spec fn obeys_from_spec() -> bool {
        true
    }

    open spec fn from_spec(v: LnmpError) -> Self {
        BinaryError::TextFormatError { source: v }
    }
}

} // verus!
