//! Metadata blocks of `.lnmp` containers: the stream block (mode 0x03) and
//! the delta block (mode 0x04), both big-endian, and the typed view over a
//! container's payload.

use vstd::prelude::*;
use crate::binary::delta::DeltaApplyContext;
use crate::numfmt::{push_str, push_decimal};

verus! {

/// Stream metadata (mode 0x03): six bytes.
#[derive(Debug, Clone, Copy, PartialEq, Eq, Structural)]
pub struct StreamMetadata {
    /// Preferred chunk size in bytes.
    pub chunk_size: u32,
    /// Checksum type (0 = none, 1 = XOR32, 2 = SC32).
    pub checksum_type: u8,
    /// Stream flags bitfield.
    pub flags: u8,
}

/// Delta metadata (mode 0x04): ten bytes.
#[derive(Debug, Clone, Copy, PartialEq, Eq, Structural)]
pub struct DeltaMetadata {
    /// Base snapshot identifier.
    pub base_snapshot: u64,
    /// Delta algorithm identifier.
    pub algorithm: u8,
    /// Compression hint identifier.
    pub compression: u8,
}

/// The payload of a container, tagged by the container's mode.
#[derive(Debug, Clone, Copy, PartialEq, Eq)]
pub enum ContainerBody<'a> {
    /// LNMP/Text payload (UTF-8).
    Text(&'a [u8]),
    /// LNMP/Binary payload.
    Binary(&'a [u8]),
    /// LNMP/Stream payload.
    Stream(&'a [u8]),
    /// LNMP/Delta payload.
    Delta(&'a [u8]),
    /// LNMP/Quantum-Safe payload.
    QuantumSafe(&'a [u8]),
}

/// Error of reading a metadata block.
#[derive(Debug, Clone, Copy, PartialEq, Eq, Structural)]
pub enum MetadataError {
    /// The block is shorter than its mode needs.
    Truncated {
        /// Bytes the mode needs.
        expected: usize,
        /// Bytes present.
        actual: usize,
    },
}

impl MetadataError {
    /// The error as text: "metadata too short: expected at least {expected}
    /// bytes, found {actual}".
    pub fn message(&self) -> (s: String)
        ensures
            match *self {
                MetadataError::Truncated { expected, actual } => s@ == "metadata too short: expected at least "@
                    + crate::numfmt::decimal(expected as nat) + " bytes, found "@
                    + crate::numfmt::decimal(actual as nat),
            },
    {
        let mut s = String::new();
        match *self {
            MetadataError::Truncated { expected, actual } => {
                push_str(&mut s, "metadata too short: expected at least ");
                push_decimal(&mut s, expected as u64);
                push_str(&mut s, " bytes, found ");
                push_decimal(&mut s, actual as u64);
            },
        }
        s
    }
}

/// Value of four big-endian bytes.
pub open spec fn from_be32(s: Seq<u8>) -> u32 {
    (s[0] * 0x1000000 + s[1] * 0x10000 + s[2] * 0x100 + s[3]) as u32
}

/// Value of eight big-endian bytes.
pub open spec fn from_be64(s: Seq<u8>) -> u64 {
    (s[0] * 0x100000000000000 + s[1] * 0x1000000000000 + s[2] * 0x10000000000 + s[3]
        * 0x100000000 + s[4] * 0x1000000 + s[5] * 0x10000 + s[6] * 0x100 + s[7]) as u64
}

/// The stream metadata that `m` holds, when it has at least six bytes.
pub open spec fn stream_metadata_of(m: Seq<u8>) -> Result<StreamMetadata, MetadataError> {
    if m.len() < 6 {
        Err(MetadataError::Truncated { expected: 6, actual: m.len() as usize })
    } else {
        Ok(StreamMetadata { chunk_size: from_be32(m), checksum_type: m[4], flags: m[5] })
    }
}

/// The delta metadata that `m` holds, when it has at least ten bytes.
pub open spec fn delta_metadata_of(m: Seq<u8>) -> Result<DeltaMetadata, MetadataError> {
    if m.len() < 10 {
        Err(MetadataError::Truncated { expected: 10, actual: m.len() as usize })
    } else {
        Ok(DeltaMetadata { base_snapshot: from_be64(m), algorithm: m[8], compression: m[9] })
    }
}

/// Reads a stream metadata block: a big-endian chunk size, the checksum type
/// and the flags. Bytes after the sixth are ignored.
pub fn parse_stream_metadata(metadata: &[u8]) -> (r: Result<StreamMetadata, MetadataError>)
    ensures
        r == stream_metadata_of(metadata@),
{
    if metadata.len() < 6 {
        return Err(MetadataError::Truncated { expected: 6, actual: metadata.len() });
    }
    let chunk_size: u32 = (metadata[0] as u32) * 0x1000000 + (metadata[1] as u32) * 0x10000
        + (metadata[2] as u32) * 0x100 + (metadata[3] as u32);
    Ok(StreamMetadata { chunk_size, checksum_type: metadata[4], flags: metadata[5] })
}

/// Reads a delta metadata block: a big-endian base snapshot, the algorithm and
/// the compression hint. Bytes after the tenth are ignored.
pub fn parse_delta_metadata(metadata: &[u8]) -> (r: Result<DeltaMetadata, MetadataError>)
    ensures
        r == delta_metadata_of(metadata@),
{
    if metadata.len() < 10 {
        return Err(MetadataError::Truncated { expected: 10, actual: metadata.len() });
    }
    let hi: u64 = (metadata[0] as u64) * 0x100000000000000 + (metadata[1] as u64)
        * 0x1000000000000 + (metadata[2] as u64) * 0x10000000000 + (metadata[3] as u64)
        * 0x100000000;
    let lo: u64 = (metadata[4] as u64) * 0x1000000 + (metadata[5] as u64) * 0x10000
        + (metadata[6] as u64) * 0x100 + (metadata[7] as u64);
    let base_snapshot: u64 = hi + lo;
    Ok(DeltaMetadata { base_snapshot, algorithm: metadata[8], compression: metadata[9] })
}

/// The context in which a delta container's packet is applied: the metadata's
/// base snapshot, algorithm and compression, and no required base.
pub fn delta_apply_context_from_metadata(meta: &DeltaMetadata) -> (c: DeltaApplyContext)
    ensures
        c == (DeltaApplyContext {
            metadata_base: Some(meta.base_snapshot),
            required_base: None,
            algorithm: Some(meta.algorithm),
            compression: Some(meta.compression),
        }),
{
    DeltaApplyContext {
        metadata_base: Some(meta.base_snapshot),
        required_base: None,
        algorithm: Some(meta.algorithm),
        compression: Some(meta.compression),
    }
}

} // verus!
