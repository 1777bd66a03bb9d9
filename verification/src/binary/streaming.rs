//! Streaming frame layer: large payloads sent as a BEGIN frame, CHUNK frames
//! and an END frame (or an ERROR frame), with XOR checksums and a
//! backpressure window.
//!
//! Frame layout: frame type (1 byte), flags (1 byte), chunk size (varint),
//! checksum (4 bytes, little-endian), payload.

use vstd::prelude::*;
use vstd::utf8::{decode_utf8, encode_utf8, valid_utf8};
use super::error::{BinaryError, BinaryErrorModel, binary_error_text};
use super::varint::{self, sleb128, varint_parse, varint_error_reason, lemma_varint_roundtrip};
use super::wire::{le32, from_le32, append_bytes, read_le32, string_bytes, lemma_utf8_roundtrip};
use crate::numfmt::{decimal, hex_digits, push_str, push_decimal, push_hex, string_of};

verus! {

/// Configuration of a stream.
#[derive(Debug, Clone, PartialEq, Eq, Structural)]
pub struct StreamingConfig {
    /// Largest payload of one chunk, in bytes.
    pub chunk_size: usize,
    /// Whether payloads are compressed.
    pub enable_compression: bool,
    /// Whether chunk checksums are written and checked.
    pub enable_checksums: bool,
}

impl StreamingConfig {
    /// The default configuration: 4096-byte chunks, no compression, checksums on.
    pub open spec fn spec_new() -> StreamingConfig {
        StreamingConfig { chunk_size: 4096, enable_compression: false, enable_checksums: true }
    }

    /// The default configuration: 4096-byte chunks, no compression, checksums on.
    pub fn new() -> (c: Self)
        ensures
            c == Self::spec_new(),
    {
        StreamingConfig { chunk_size: 4096, enable_compression: false, enable_checksums: true }
    }

    /// Sets the chunk size.
    pub fn with_chunk_size(self, size: usize) -> (c: Self)
        ensures
            c == (StreamingConfig { chunk_size: size, ..self }),
    {
        StreamingConfig { chunk_size: size, ..self }
    }

    /// Turns compression on or off.
    pub fn with_compression(self, enabled: bool) -> (c: Self)
        ensures
            c == (StreamingConfig { enable_compression: enabled, ..self }),
    {
        StreamingConfig { enable_compression: enabled, ..self }
    }

    /// Turns checksums on or off.
    pub fn with_checksums(self, enabled: bool) -> (c: Self)
        ensures
            c == (StreamingConfig { enable_checksums: enabled, ..self }),
    {
        StreamingConfig { enable_checksums: enabled, ..self }
    }
}

impl Default for StreamingConfig {
    fn default() -> (c: Self)
        ensures
            c == Self::spec_new(),
    {
        Self::new()
    }
}

/// Kind of a streaming frame.
#[derive(Debug, Clone, Copy, PartialEq, Eq, Structural)]
pub enum FrameType {
    /// Start of a stream (byte 0xA0).
    Begin,
    /// A segment of the payload (byte 0xA1).
    Chunk,
    /// End of a stream (byte 0xA2).
    End,
    /// The stream failed (byte 0xA3).
    Error,
}

/// Byte of a frame type.
pub open spec fn frame_type_byte(t: FrameType) -> u8 {
    match t {
        FrameType::Begin => 0xA0,
        FrameType::Chunk => 0xA1,
        FrameType::End => 0xA2,
        FrameType::Error => 0xA3,
    }
}

/// Frame type of a byte, if it names one.
pub open spec fn frame_type_of(b: u8) -> Option<FrameType> {
    if b == 0xA0 {
        Some(FrameType::Begin)
    } else if b == 0xA1 {
        Some(FrameType::Chunk)
    } else if b == 0xA2 {
        Some(FrameType::End)
    } else if b == 0xA3 {
        Some(FrameType::Error)
    } else {
        None
    }
}

impl FrameType {
    /// The frame type named by `byte`.
    pub fn from_u8(byte: u8) -> (r: Result<Self, StreamingError>)
        ensures
            match frame_type_of(byte) {
                Some(t) => r == Ok::<FrameType, StreamingError>(t),
                None => r == Err::<FrameType, StreamingError>(
                    StreamingError::InvalidFrameType { found: byte },
                ),
            },
    {
        match byte {
            0xA0 => Ok(FrameType::Begin),
            0xA1 => Ok(FrameType::Chunk),
            0xA2 => Ok(FrameType::End),
            0xA3 => Ok(FrameType::Error),
            _ => Err(StreamingError::InvalidFrameType { found: byte }),
        }
    }

    /// The byte of this frame type.
    pub fn to_u8(self) -> (b: u8)
        ensures
            b == frame_type_byte(self),
    {
        match self {
            FrameType::Begin => 0xA0,
            FrameType::Chunk => 0xA1,
            FrameType::End => 0xA2,
            FrameType::Error => 0xA3,
        }
    }

    /// Name of the frame type.
    pub fn name(self) -> (s: &'static str)
        ensures
            s@ == frame_type_name(self),
    {
        proof {
            reveal_strlit("Begin");
            reveal_strlit("Chunk");
            reveal_strlit("End");
            reveal_strlit("Error");
        }
        match self {
            FrameType::Begin => "Begin",
            FrameType::Chunk => "Chunk",
            FrameType::End => "End",
            FrameType::Error => "Error",
        }
    }
}

/// Name of a frame type.
pub open spec fn frame_type_name(t: FrameType) -> Seq<char> {
    match t {
        FrameType::Begin => seq!['B', 'e', 'g', 'i', 'n'],
        FrameType::Chunk => seq!['C', 'h', 'u', 'n', 'k'],
        FrameType::End => seq!['E', 'n', 'd'],
        FrameType::Error => seq!['E', 'r', 'r', 'o', 'r'],
    }
}

/// Reading back the byte of a frame type gives the frame type.
pub proof fn lemma_frame_type_roundtrip(t: FrameType)
    ensures
        frame_type_of(frame_type_byte(t)) == Some(t),
{
}

/// Flags of a frame: bit 0 says more chunks follow, bit 1 that the payload is
/// compressed; the other bits are reserved.
#[derive(Debug, Clone, Copy, PartialEq, Eq, Structural)]
pub struct FrameFlags {
    /// More chunks follow.
    pub has_more: bool,
    /// The payload is compressed.
    pub compressed: bool,
}

/// Byte of a set of flags.
pub open spec fn flags_byte(f: FrameFlags) -> u8 {
    ((if f.has_more { 1u8 } else { 0u8 }) + (if f.compressed { 2u8 } else { 0u8 })) as u8
}

/// Flags read from a byte.
pub open spec fn flags_of(b: u8) -> FrameFlags {
    FrameFlags { has_more: b & 1 != 0, compressed: b & 2 != 0 }
}

impl FrameFlags {
    /// No flag set.
    pub fn new() -> (f: Self)
        ensures
            f == (FrameFlags { has_more: false, compressed: false }),
    {
        FrameFlags { has_more: false, compressed: false }
    }

    /// The flags held by `byte`.
    pub fn from_u8(byte: u8) -> (f: Self)
        ensures
            f == flags_of(byte),
    {
        FrameFlags { has_more: (byte & 0x01) != 0, compressed: (byte & 0x02) != 0 }
    }

    /// The byte of these flags.
    pub fn to_u8(self) -> (b: u8)
        ensures
            b == flags_byte(self),
    {
        let low: u8 = if self.has_more { 0x01 } else { 0 };
        let high: u8 = if self.compressed { 0x02 } else { 0 };
        low + high
    }
}

impl Default for FrameFlags {
    fn default() -> (f: Self)
        ensures
            f == (FrameFlags { has_more: false, compressed: false }),
    {
        Self::new()
    }
}

/// Flags survive a trip through their byte, and a byte through flags keeps
/// exactly its two low bits.
pub proof fn lemma_flags_roundtrip(f: FrameFlags, b: u8)
    ensures
        flags_of(flags_byte(f)) == f,
        flags_byte(flags_of(b)) == b & 3,
{
    let x = flags_byte(f);
    if f.has_more && f.compressed {
        assert(x == 3);
    } else if f.has_more {
        assert(x == 1);
    } else if f.compressed {
        assert(x == 2);
    } else {
        assert(x == 0);
    }
    assert(x == 3u8 ==> (x & 1 != 0) && (x & 2 != 0)) by (bit_vector);
    assert(x == 1u8 ==> (x & 1 != 0) && (x & 2 == 0)) by (bit_vector);
    assert(x == 2u8 ==> (x & 1 == 0) && (x & 2 != 0)) by (bit_vector);
    assert(x == 0u8 ==> (x & 1 == 0) && (x & 2 == 0)) by (bit_vector);
    assert(((if b & 1 != 0 { 1u8 } else { 0u8 }) + (if b & 2 != 0 { 2u8 } else { 0u8 })) == b & 3)
        by (bit_vector);
}

/// Byte `k` of `s`, or zero past its end.
pub open spec fn byte_or_zero(s: Seq<u8>, k: int) -> u32 {
    if 0 <= k < s.len() {
        s[k] as u32
    } else {
        0
    }
}

/// The little-endian 32-bit word that starts at `i`, padded with zeros.
pub open spec fn word_at(s: Seq<u8>, i: int) -> u32 {
    (byte_or_zero(s, i) + 0x100 * byte_or_zero(s, i + 1) + 0x10000 * byte_or_zero(s, i + 2)
        + 0x1000000 * byte_or_zero(s, i + 3)) as u32
}

/// XOR of the first `n` words of `s`.
pub open spec fn xor_words(s: Seq<u8>, n: nat) -> u32
    decreases n,
{
    if n == 0 {
        0
    } else {
        xor_words(s, (n - 1) as nat) ^ word_at(s, 4 * (n - 1))
    }
}

/// Checksum of a payload: the XOR of its little-endian 32-bit words, the last
/// one padded with zeros.
pub open spec fn xor_checksum(s: Seq<u8>) -> u32 {
    xor_words(s, ((s.len() + 3) / 4) as nat)
}

/// Model of a streaming frame.
pub struct FrameModel {
    pub frame_type: FrameType,
    pub flags: FrameFlags,
    pub chunk_size: usize,
    pub checksum: u32,
    pub payload: Seq<u8>,
}

/// A streaming frame.
#[derive(Debug, Clone, PartialEq)]
pub struct StreamingFrame {
    /// Kind of frame.
    pub frame_type: FrameType,
    /// Frame flags.
    pub flags: FrameFlags,
    /// Size of the payload.
    pub chunk_size: usize,
    /// XOR checksum of the payload (zero but in chunk frames).
    pub checksum: u32,
    /// Payload bytes.
    pub payload: Vec<u8>,
}

impl View for StreamingFrame {
    type V = FrameModel;

    open spec fn view(&self) -> FrameModel {
        FrameModel {
            frame_type: self.frame_type,
            flags: self.flags,
            chunk_size: self.chunk_size,
            checksum: self.checksum,
            payload: self.payload@,
        }
    }
}

/// Model of the frame that opens a stream.
pub open spec fn begin_model() -> FrameModel {
    FrameModel {
        frame_type: FrameType::Begin,
        flags: FrameFlags { has_more: false, compressed: false },
        chunk_size: 0,
        checksum: 0,
        payload: Seq::empty(),
    }
}

/// Model of the frame that closes a stream.
pub open spec fn end_model() -> FrameModel {
    FrameModel { frame_type: FrameType::End, ..begin_model() }
}

/// Model of a chunk frame carrying `payload`.
pub open spec fn chunk_model(payload: Seq<u8>, has_more: bool) -> FrameModel {
    FrameModel {
        frame_type: FrameType::Chunk,
        flags: FrameFlags { has_more, compressed: false },
        chunk_size: payload.len() as usize,
        checksum: xor_checksum(payload),
        payload,
    }
}

/// Model of an error frame carrying `message`.
pub open spec fn error_model(message: Seq<char>) -> FrameModel {
    FrameModel {
        frame_type: FrameType::Error,
        flags: FrameFlags { has_more: false, compressed: false },
        chunk_size: encode_utf8(message).len() as usize,
        checksum: 0,
        payload: encode_utf8(message),
    }
}

/// Checksum of `data`.
fn xor_checksum_of(data: &[u8]) -> (c: u32)
    ensures
        c == xor_checksum(data@),
{
    let n = data.len();
    let mut checksum: u32 = 0;
    let mut i: usize = 0;
    while i < n
        invariant
            n == data@.len(),
            i <= n,
            i % 4 == 0 || i == n,
            checksum == xor_words(data@, ((i + 3) / 4) as nat),
        decreases n - i,
    {
        let b0: u8 = data[i];
        let b1: u8 = if n - i > 1 { data[i + 1] } else { 0 };
        let b2: u8 = if n - i > 2 { data[i + 2] } else { 0 };
        let b3: u8 = if n - i > 3 { data[i + 3] } else { 0 };
        let word: u32 = (b0 as u32) | ((b1 as u32) << 8) | ((b2 as u32) << 16) | ((b3 as u32) << 24);
        assert(word == b0 + 0x100 * b1 + 0x10000 * b2 + 0x1000000 * b3) by (bit_vector)
            requires
                word == (b0 as u32) | ((b1 as u32) << 8) | ((b2 as u32) << 16) | ((b3 as u32) << 24),
        ;
        assert(word == word_at(data@, i as int));
        assert(((i + 3) / 4) as nat + 1 == (((i + 3) / 4) as nat + 1) as nat);
        assert(4 * (((i + 3) / 4) as nat) == i);
        assert(xor_words(data@, (((i + 3) / 4) + 1) as nat) == checksum ^ word);
        checksum = checksum ^ word;
        if n - i > 4 {
            i = i + 4;
        } else {
            i = n;
        }
    }
    checksum
}

impl StreamingFrame {
    /// The frame that opens a stream.
    pub fn begin() -> (f: Self)
        ensures
            f@ == begin_model(),
    {
        StreamingFrame {
            frame_type: FrameType::Begin,
            flags: FrameFlags::new(),
            chunk_size: 0,
            checksum: 0,
            payload: Vec::new(),
        }
    }

    /// A chunk frame carrying `payload`, with its checksum.
    pub fn chunk(payload: Vec<u8>, has_more: bool) -> (f: Self)
        ensures
            f@ == chunk_model(payload@, has_more),
    {
        let chunk_size = payload.len();
        let checksum = xor_checksum_of(payload.as_slice());
        let mut flags = FrameFlags::new();
        flags.has_more = has_more;
        StreamingFrame { frame_type: FrameType::Chunk, flags, chunk_size, checksum, payload }
    }

    /// The frame that closes a stream.
    pub fn end() -> (f: Self)
        ensures
            f@ == end_model(),
    {
        StreamingFrame {
            frame_type: FrameType::End,
            flags: FrameFlags::new(),
            chunk_size: 0,
            checksum: 0,
            payload: Vec::new(),
        }
    }

    /// An error frame carrying the UTF-8 bytes of `message`.
    pub fn error(message: String) -> (f: Self)
        ensures
            f@ == error_model(message@),
    {
        let mut payload: Vec<u8> = Vec::new();
        append_bytes(&mut payload, string_bytes(&message));
        let chunk_size = payload.len();
        StreamingFrame {
            frame_type: FrameType::Error,
            flags: FrameFlags::new(),
            chunk_size,
            checksum: 0,
            payload,
        }
    }

    /// The XOR checksum of `data`: its little-endian 32-bit words XORed
    /// together, the last word padded with zeros.
    pub fn compute_xor_checksum(data: &[u8]) -> (c: u32)
        ensures
            c == xor_checksum(data@),
    {
        xor_checksum_of(data)
    }

    /// Checks the checksum of a chunk frame; other frames always pass.
    pub fn validate_checksum(&self) -> (r: Result<(), StreamingError>)
        ensures
            r == checksum_check(self@),
    {
        if self.frame_type == FrameType::Chunk {
            let computed = xor_checksum_of(self.payload.as_slice());
            if computed != self.checksum {
                return Err(StreamingError::ChecksumMismatch { expected: self.checksum, found: computed });
            }
        }
        Ok(())
    }
}

/// Outcome of checking the checksum of a frame.
pub open spec fn checksum_check(f: FrameModel) -> Result<(), StreamingError> {
    if f.frame_type == FrameType::Chunk && xor_checksum(f.payload) != f.checksum {
        Err(StreamingError::ChecksumMismatch { expected: f.checksum, found: xor_checksum(f.payload) })
    } else {
        Ok(())
    }
}

/// Errors of the streaming layer.
#[allow(inconsistent_fields)]
#[derive(Debug, Clone, PartialEq)]
pub enum StreamingError {
    /// A byte that names no frame type.
    InvalidFrameType {
        /// The byte.
        found: u8,
    },
    /// The checksum of a chunk does not match its payload.
    ChecksumMismatch {
        /// Checksum carried by the frame.
        expected: u32,
        /// Checksum of the payload.
        found: u32,
    },
    /// A frame that the stream does not allow here.
    UnexpectedFrame {
        /// Frame type expected.
        expected: FrameType,
        /// Frame type found.
        found: FrameType,
    },
    /// No BEGIN frame has opened the stream.
    StreamNotStarted,
    /// The END frame has already closed the stream.
    StreamAlreadyComplete,
    /// A chunk larger than the configured chunk size.
    ChunkSizeExceeded {
        /// Size of the chunk.
        size: usize,
        /// Largest size allowed.
        max: usize,
    },
    /// Error of the binary layer.
    BinaryError(BinaryError),
}

/// Model of a streaming error.
#[allow(inconsistent_fields)]
pub enum StreamingErrorModel {
    InvalidFrameType { found: u8 },
    ChecksumMismatch { expected: u32, found: u32 },
    UnexpectedFrame { expected: FrameType, found: FrameType },
    StreamNotStarted,
    StreamAlreadyComplete,
    ChunkSizeExceeded { size: usize, max: usize },
    Binary(BinaryErrorModel),
}

impl View for StreamingError {
    type V = StreamingErrorModel;

    open spec fn view(&self) -> StreamingErrorModel {
        match self {
            StreamingError::InvalidFrameType { found } => StreamingErrorModel::InvalidFrameType {
                found: *found,
            },
            StreamingError::ChecksumMismatch { expected, found } => StreamingErrorModel::ChecksumMismatch {
                expected: *expected,
                found: *found,
            },
            StreamingError::UnexpectedFrame { expected, found } => StreamingErrorModel::UnexpectedFrame {
                expected: *expected,
                found: *found,
            },
            StreamingError::StreamNotStarted => StreamingErrorModel::StreamNotStarted,
            StreamingError::StreamAlreadyComplete => StreamingErrorModel::StreamAlreadyComplete,
            StreamingError::ChunkSizeExceeded { size, max } => StreamingErrorModel::ChunkSizeExceeded {
                size: *size,
                max: *max,
            },
            StreamingError::BinaryError(e) => StreamingErrorModel::Binary(e@),
        }
    }
}

/// The message of a streaming error.
pub open spec fn streaming_error_text(e: StreamingError) -> Seq<char> {
    match e {
        StreamingError::InvalidFrameType { found } => "Invalid frame type: 0x"@ + hex_digits(
            found as nat,
            2,
        ),
        StreamingError::ChecksumMismatch { expected, found } => "Checksum mismatch: expected 0x"@
            + hex_digits(expected as nat, 8) + ", found 0x"@ + hex_digits(found as nat, 8),
        StreamingError::UnexpectedFrame { expected, found } => "Unexpected frame: expected "@
            + frame_type_name(expected) + ", found "@ + frame_type_name(found),
        StreamingError::StreamNotStarted => "Stream not started: no BEGIN frame received"@,
        StreamingError::StreamAlreadyComplete => "Stream already complete: END frame already received"@,
        StreamingError::ChunkSizeExceeded { size, max } => "Chunk size exceeded: size "@ + decimal(
            size as nat,
        ) + " bytes exceeds maximum "@ + decimal(max as nat) + " bytes"@,
        StreamingError::BinaryError(err) => "Binary error: "@ + binary_error_text(err),
    }
}

impl StreamingError {
    /// The message of the error.
    pub fn message(&self) -> (s: String)
        ensures
            s@ == streaming_error_text(*self),
    {
        let mut s = String::new();
        match self {
            StreamingError::InvalidFrameType { found } => {
                push_str(&mut s, "Invalid frame type: 0x");
                push_hex(&mut s, *found as u64, 2);
            },
            StreamingError::ChecksumMismatch { expected, found } => {
                push_str(&mut s, "Checksum mismatch: expected 0x");
                push_hex(&mut s, *expected as u64, 8);
                push_str(&mut s, ", found 0x");
                push_hex(&mut s, *found as u64, 8);
            },
            StreamingError::UnexpectedFrame { expected, found } => {
                push_str(&mut s, "Unexpected frame: expected ");
                push_str(&mut s, expected.name());
                push_str(&mut s, ", found ");
                push_str(&mut s, found.name());
            },
            StreamingError::StreamNotStarted => {
                push_str(&mut s, "Stream not started: no BEGIN frame received");
            },
            StreamingError::StreamAlreadyComplete => {
                push_str(&mut s, "Stream already complete: END frame already received");
            },
            StreamingError::ChunkSizeExceeded { size, max } => {
                push_str(&mut s, "Chunk size exceeded: size ");
                push_decimal(&mut s, *size as u64);
                push_str(&mut s, " bytes exceeds maximum ");
                push_decimal(&mut s, *max as u64);
                push_str(&mut s, " bytes");
            },
            StreamingError::BinaryError(err) => {
                push_str(&mut s, "Binary error: ");
                let m = err.message();
                push_str(&mut s, m.as_str());
            },
        }
        proof {
            assert(s@ =~= streaming_error_text(*self));
        }
        s
    }
}

impl From<BinaryError> for StreamingError {
    fn from(err: BinaryError) -> (r: Self) {
        StreamingError::BinaryError(err)
    }
}

impl vstd::std_specs::convert::FromSpecImpl<BinaryError> for StreamingError {
    open spec fn obeys_from_spec() -> bool {
        true
    }

    open spec fn from_spec(v: BinaryError) -> Self {
        StreamingError::BinaryError(v)
    }
}


/// Wire form of a frame, written with chunk checksums on or off.
pub open spec fn frame_bytes(f: FrameModel, checksums: bool) -> Seq<u8> {
    seq![frame_type_byte(f.frame_type), flags_byte(f.flags)] + sleb128((f.chunk_size as i64) as int)
        + (if f.frame_type == FrameType::Chunk && checksums {
        le32(f.checksum)
    } else {
        seq![0u8, 0u8, 0u8, 0u8]
    }) + f.payload
}

/// Chunk size carried by a varint value.
pub open spec fn size_of_varint(v: int) -> usize {
    (v as i64) as usize
}

/// Reads a frame from `b`.
pub open spec fn parse_stream_frame(b: Seq<u8>) -> Result<FrameModel, StreamingErrorModel> {
    if b.len() < 7 {
        Err(StreamingErrorModel::Binary(BinaryErrorModel::UnexpectedEof { expected: 7, found: b.len() }))
    } else {
        match frame_type_of(b[0]) {
            None => Err(StreamingErrorModel::InvalidFrameType { found: b[0] }),
            Some(t) => match varint_parse(b.skip(2)) {
                None => Err(
                    StreamingErrorModel::Binary(
                        BinaryErrorModel::InvalidVarInt { reason: varint_error_reason(b.skip(2)) },
                    ),
                ),
                Some((v, n)) => {
                    let pos = 2 + n;
                    let size = size_of_varint(v);
                    if pos + 4 > b.len() {
                        Err(
                            StreamingErrorModel::Binary(
                                BinaryErrorModel::UnexpectedEof { expected: pos + 4, found: b.len() },
                            ),
                        )
                    } else if pos + 4 + size > b.len() {
                        Err(
                            StreamingErrorModel::Binary(
                                BinaryErrorModel::UnexpectedEof {
                                    expected: (pos + 4 + size) as nat,
                                    found: b.len(),
                                },
                            ),
                        )
                    } else {
                        Ok(
                            FrameModel {
                                frame_type: t,
                                flags: flags_of(b[1]),
                                chunk_size: size,
                                checksum: from_le32(b.subrange(pos as int, pos + 4 as int)),
                                payload: b.subrange(pos + 4 as int, pos + 4 + size as int),
                            },
                        )
                    }
                },
            },
        }
    }
}

/// The end of the payload that the header of `b` announces lies within the
/// range of `usize` (a header announcing more panics on the addition).
pub open spec fn frame_end_fits(b: Seq<u8>) -> bool {
    b.len() >= 7 && frame_type_of(b[0]) is Some ==> match varint_parse(b.skip(2)) {
        Some((v, n)) => 2 + n + 4 + size_of_varint(v) <= usize::MAX,
        None => true,
    }
}

/// Model of a result carrying a frame.
pub open spec fn frame_result(r: Result<StreamingFrame, StreamingError>) -> Result<FrameModel, StreamingErrorModel> {
    match r {
        Ok(f) => Ok(f@),
        Err(e) => Err(e@),
    }
}

/// Model of a result carrying an event.
pub open spec fn event_result(r: Result<StreamingEvent, StreamingError>) -> Result<StreamingEvent, StreamingErrorModel> {
    match r {
        Ok(e) => Ok(e),
        Err(e) => Err(e@),
    }
}

/// State of a stream.
#[derive(Debug, Clone, PartialEq, Eq)]
pub enum StreamingState {
    /// No stream open.
    Idle,
    /// A stream is open.
    Streaming {
        /// Payload bytes so far.
        bytes_sent: usize,
        /// Chunks so far.
        chunks_sent: usize,
    },
    /// The stream ended.
    Complete,
    /// The stream failed.
    Error(String),
}

/// Writes a stream as frames.
pub struct StreamingEncoder {
    /// Configuration.
    pub config: StreamingConfig,
    /// State of the stream.
    pub state: StreamingState,
}

impl StreamingEncoder {
    /// An idle encoder with the default configuration.
    pub fn new() -> (e: Self)
        ensures
            e.config == StreamingConfig::spec_new(),
            e.state == StreamingState::Idle,
    {
        StreamingEncoder { config: StreamingConfig::new(), state: StreamingState::Idle }
    }

    /// An idle encoder with `config`.
    pub fn with_config(config: StreamingConfig) -> (e: Self)
        ensures
            e.config == config,
            e.state == StreamingState::Idle,
    {
        StreamingEncoder { config, state: StreamingState::Idle }
    }

    /// Opens a stream and returns its BEGIN frame; refused while a stream is open.
    pub fn begin_stream(&mut self) -> (r: Result<Vec<u8>, StreamingError>)
        ensures
            final(self).config == old(self).config,
            match old(self).state {
                StreamingState::Streaming { .. } => final(self).state == old(self).state && r
                    == Err::<Vec<u8>, StreamingError>(
                    StreamingError::UnexpectedFrame { expected: FrameType::Chunk, found: FrameType::Begin },
                ),
                _ => final(self).state == (StreamingState::Streaming { bytes_sent: 0, chunks_sent: 0 })
                    && (r matches Ok(b) && b@ == frame_bytes(begin_model(), old(self).config.enable_checksums)),
            },
    {
        match &self.state {
            StreamingState::Streaming { .. } => Err(
                StreamingError::UnexpectedFrame { expected: FrameType::Chunk, found: FrameType::Begin },
            ),
            _ => {
                self.state = StreamingState::Streaming { bytes_sent: 0, chunks_sent: 0 };
                let frame = StreamingFrame::begin();
                self.encode_frame(&frame)
            },
        }
    }

    /// Writes `data` as one CHUNK frame of the open stream.
    pub fn write_chunk(&mut self, data: &[u8]) -> (r: Result<Vec<u8>, StreamingError>)
        requires
            old(self).state matches StreamingState::Streaming { bytes_sent, chunks_sent } ==> bytes_sent
                + data@.len() <= usize::MAX && chunks_sent < usize::MAX,
        ensures
            final(self).config == old(self).config,
            match old(self).state {
                StreamingState::Streaming { bytes_sent, chunks_sent } => if data@.len()
                    > old(self).config.chunk_size {
                    final(self).state == old(self).state && r == Err::<Vec<u8>, StreamingError>(
                        StreamingError::ChunkSizeExceeded {
                            size: data@.len() as usize,
                            max: old(self).config.chunk_size,
                        },
                    )
                } else {
                    final(self).state == (StreamingState::Streaming {
                        bytes_sent: (bytes_sent + data@.len()) as usize,
                        chunks_sent: (chunks_sent + 1) as usize,
                    }) && (r matches Ok(b) && b@ == frame_bytes(
                        chunk_model(data@, false),
                        old(self).config.enable_checksums,
                    ))
                },
                StreamingState::Idle => final(self).state == old(self).state && r == Err::<
                    Vec<u8>,
                    StreamingError,
                >(StreamingError::StreamNotStarted),
                StreamingState::Complete => final(self).state == old(self).state && r == Err::<
                    Vec<u8>,
                    StreamingError,
                >(StreamingError::StreamAlreadyComplete),
                StreamingState::Error(_) => final(self).state == old(self).state && r == Err::<
                    Vec<u8>,
                    StreamingError,
                >(StreamingError::UnexpectedFrame { expected: FrameType::Chunk, found: FrameType::Error }),
            },
    {
        match &self.state {
            StreamingState::Streaming { bytes_sent, chunks_sent } => {
                if data.len() > self.config.chunk_size {
                    return Err(
                        StreamingError::ChunkSizeExceeded { size: data.len(), max: self.config.chunk_size },
                    );
                }
                let mut payload: Vec<u8> = Vec::new();
                append_bytes(&mut payload, data);
                let frame = StreamingFrame::chunk(payload, false);
                self.state = StreamingState::Streaming {
                    bytes_sent: *bytes_sent + data.len(),
                    chunks_sent: *chunks_sent + 1,
                };
                self.encode_frame(&frame)
            },
            StreamingState::Idle => Err(StreamingError::StreamNotStarted),
            StreamingState::Complete => Err(StreamingError::StreamAlreadyComplete),
            StreamingState::Error(_) => Err(
                StreamingError::UnexpectedFrame { expected: FrameType::Chunk, found: FrameType::Error },
            ),
        }
    }

    /// Closes the open stream and returns its END frame.
    pub fn end_stream(&mut self) -> (r: Result<Vec<u8>, StreamingError>)
        ensures
            final(self).config == old(self).config,
            match old(self).state {
                StreamingState::Streaming { .. } => final(self).state == StreamingState::Complete
                    && (r matches Ok(b) && b@ == frame_bytes(end_model(), old(self).config.enable_checksums)),
                StreamingState::Idle => final(self).state == old(self).state && r == Err::<
                    Vec<u8>,
                    StreamingError,
                >(StreamingError::StreamNotStarted),
                StreamingState::Complete => final(self).state == old(self).state && r == Err::<
                    Vec<u8>,
                    StreamingError,
                >(StreamingError::StreamAlreadyComplete),
                StreamingState::Error(_) => final(self).state == old(self).state && r == Err::<
                    Vec<u8>,
                    StreamingError,
                >(StreamingError::UnexpectedFrame { expected: FrameType::End, found: FrameType::Error }),
            },
    {
        match &self.state {
            StreamingState::Streaming { .. } => {
                self.state = StreamingState::Complete;
                let frame = StreamingFrame::end();
                self.encode_frame(&frame)
            },
            StreamingState::Idle => Err(StreamingError::StreamNotStarted),
            StreamingState::Complete => Err(StreamingError::StreamAlreadyComplete),
            StreamingState::Error(_) => Err(
                StreamingError::UnexpectedFrame { expected: FrameType::End, found: FrameType::Error },
            ),
        }
    }

    /// Fails the stream with `error` and returns its ERROR frame.
    pub fn error_frame(&mut self, error: &str) -> (r: Result<Vec<u8>, StreamingError>)
        ensures
            final(self).config == old(self).config,
            final(self).state matches StreamingState::Error(m) && m@ == error@,
            r matches Ok(b) && b@ == frame_bytes(error_model(error@), old(self).config.enable_checksums),
    {
        self.state = StreamingState::Error(string_of(error));
        let frame = StreamingFrame::error(string_of(error));
        self.encode_frame(&frame)
    }

    /// State of the stream.
    pub fn state(&self) -> (s: &StreamingState)
        ensures
            *s == self.state,
    {
        &self.state
    }

    /// Wire form of `frame`; the checksum is written for chunk frames when
    /// checksums are on, and zero otherwise.
    pub fn encode_frame(&self, frame: &StreamingFrame) -> (r: Result<Vec<u8>, StreamingError>)
        ensures
            r matches Ok(b) && b@ == frame_bytes(frame@, self.config.enable_checksums),
    {
        let mut bytes: Vec<u8> = Vec::new();
        bytes.push(frame.frame_type.to_u8());
        bytes.push(frame.flags.to_u8());
        let size = varint::encode(frame.chunk_size as i64);
        append_bytes(&mut bytes, size.as_slice());
        if frame.frame_type == FrameType::Chunk && self.config.enable_checksums {
            push_u32_le(&mut bytes, frame.checksum);
        } else {
            push_u32_le(&mut bytes, 0);
            assert(le32(0) =~= seq![0u8, 0u8, 0u8, 0u8]);
        }
        append_bytes(&mut bytes, frame.payload.as_slice());
        proof {
            assert(bytes@ =~= frame_bytes(frame@, self.config.enable_checksums));
        }
        Ok(bytes)
    }
}

impl Default for StreamingEncoder {
    fn default() -> (e: Self)
        ensures
            e.config == StreamingConfig::spec_new(),
            e.state == StreamingState::Idle,
    {
        Self::new()
    }
}

/// Appends the little-endian bytes of `x`.
fn push_u32_le(v: &mut Vec<u8>, x: u32)
    ensures
        final(v)@ == old(v)@ + le32(x),
{
    super::wire::push_le32(v, x);
}

/// What the decoder reports for a frame.
#[derive(Debug, Clone, PartialEq)]
pub enum StreamingEvent {
    /// A BEGIN frame opened the stream.
    StreamStarted,
    /// A CHUNK frame arrived.
    ChunkReceived {
        /// Bytes in the chunk.
        bytes: usize,
    },
    /// An END frame closed the stream.
    StreamComplete {
        /// Payload bytes received.
        total_bytes: usize,
    },
    /// An ERROR frame failed the stream.
    StreamError {
        /// The message it carried.
        message: String,
    },
}

/// Effect of a BEGIN, CHUNK or END frame `f` on a decoder in state `st`
/// holding `buf`: the next state, the next buffer and what is reported.
/// (ERROR frames carry text whose decoding `feed_frame` states by itself.)
pub open spec fn decoder_step(st: StreamingState, buf: Seq<u8>, checks: bool, f: FrameModel) -> (
    StreamingState,
    Seq<u8>,
    Result<StreamingEvent, StreamingErrorModel>,
) {
    match f.frame_type {
        FrameType::Begin => match st {
            StreamingState::Streaming { .. } => (
                st,
                buf,
                Err(StreamingErrorModel::UnexpectedFrame { expected: FrameType::Chunk, found: FrameType::Begin }),
            ),
            _ => (StreamingState::Streaming { bytes_sent: 0, chunks_sent: 0 }, Seq::empty(), Ok(StreamingEvent::StreamStarted)),
        },
        FrameType::Chunk => match st {
            StreamingState::Streaming { bytes_sent, chunks_sent } => if checks && xor_checksum(f.payload)
                != f.checksum {
                (
                    st,
                    buf,
                    Err(StreamingErrorModel::ChecksumMismatch { expected: f.checksum, found: xor_checksum(f.payload) }),
                )
            } else {
                (
                    StreamingState::Streaming {
                        bytes_sent: (bytes_sent + f.payload.len()) as usize,
                        chunks_sent: (chunks_sent + 1) as usize,
                    },
                    buf + f.payload,
                    Ok(StreamingEvent::ChunkReceived { bytes: f.payload.len() as usize }),
                )
            },
            StreamingState::Idle => (st, buf, Err(StreamingErrorModel::StreamNotStarted)),
            StreamingState::Complete => (st, buf, Err(StreamingErrorModel::StreamAlreadyComplete)),
            StreamingState::Error(_) => (
                st,
                buf,
                Err(StreamingErrorModel::UnexpectedFrame { expected: FrameType::Chunk, found: FrameType::Error }),
            ),
        },
        _ => match st {
            StreamingState::Streaming { bytes_sent, .. } => (
                StreamingState::Complete,
                buf,
                Ok(StreamingEvent::StreamComplete { total_bytes: bytes_sent }),
            ),
            StreamingState::Idle => (st, buf, Err(StreamingErrorModel::StreamNotStarted)),
            StreamingState::Complete => (st, buf, Err(StreamingErrorModel::StreamAlreadyComplete)),
            StreamingState::Error(_) => (
                st,
                buf,
                Err(StreamingErrorModel::UnexpectedFrame { expected: FrameType::End, found: FrameType::Error }),
            ),
        },
    }
}

/// The counters of an open stream can take `n` more bytes and one more chunk.
pub open spec fn room_for(st: StreamingState, n: nat) -> bool {
    st matches StreamingState::Streaming { bytes_sent, chunks_sent } ==> bytes_sent + n <= usize::MAX
        && chunks_sent < usize::MAX
}

/// Reads a stream of frames back into its payload.
pub struct StreamingDecoder {
    /// Configuration.
    pub config: StreamingConfig,
    /// State of the stream.
    pub state: StreamingState,
    /// Payload received so far.
    pub buffer: Vec<u8>,
}

impl StreamingDecoder {
    /// An idle decoder with the default configuration.
    pub fn new() -> (d: Self)
        ensures
            d.config == StreamingConfig::spec_new(),
            d.state == StreamingState::Idle,
            d.buffer@ == Seq::<u8>::empty(),
    {
        StreamingDecoder { config: StreamingConfig::new(), state: StreamingState::Idle, buffer: Vec::new() }
    }

    /// An idle decoder with `config`.
    pub fn with_config(config: StreamingConfig) -> (d: Self)
        ensures
            d.config == config,
            d.state == StreamingState::Idle,
            d.buffer@ == Seq::<u8>::empty(),
    {
        StreamingDecoder { config, state: StreamingState::Idle, buffer: Vec::new() }
    }

    /// Reads one frame and applies it to the stream. A frame that cannot be
    /// read leaves the decoder as it was.
    pub fn feed_frame(&mut self, frame_bytes: &[u8]) -> (r: Result<StreamingEvent, StreamingError>)
        requires
            frame_end_fits(frame_bytes@),
            room_for(old(self).state, frame_bytes@.len()),
        ensures
            final(self).config == old(self).config,
            match parse_stream_frame(frame_bytes@) {
                Err(e) => (r matches Err(x) && x@ == e) && final(self).state == old(self).state
                    && final(self).buffer@ == old(self).buffer@,
                Ok(f) => if f.frame_type == FrameType::Error {
                    final(self).buffer@ == old(self).buffer@ && (r matches Ok(
                        StreamingEvent::StreamError { message },
                    ) && final(self).state == StreamingState::Error(message) && message@ == lossy_text(
                        f.payload,
                    ) && (valid_utf8(f.payload) ==> message@ == decode_utf8(f.payload)))
                } else {
                    (final(self).state, final(self).buffer@, event_result(r)) == decoder_step(
                        old(self).state,
                        old(self).buffer@,
                        old(self).config.enable_checksums,
                        f,
                    )
                },
            },
    {
        let frame = match self.decode_frame(frame_bytes) {
            Ok(f) => f,
            Err(e) => return Err(e),
        };
        proof {
            lemma_payload_within(frame_bytes@);
        }
        match frame.frame_type {
            FrameType::Begin => match &self.state {
                StreamingState::Streaming { .. } => Err(
                    StreamingError::UnexpectedFrame { expected: FrameType::Chunk, found: FrameType::Begin },
                ),
                _ => {
                    self.state = StreamingState::Streaming { bytes_sent: 0, chunks_sent: 0 };
                    self.buffer.clear();
                    Ok(StreamingEvent::StreamStarted)
                },
            },
            FrameType::Chunk => match &self.state {
                StreamingState::Streaming { bytes_sent, chunks_sent } => {
                    if self.config.enable_checksums {
                        match frame.validate_checksum() {
                            Ok(()) => {},
                            Err(e) => return Err(e),
                        }
                    }
                    let chunk_size = frame.payload.len();
                    let next = StreamingState::Streaming {
                        bytes_sent: *bytes_sent + chunk_size,
                        chunks_sent: *chunks_sent + 1,
                    };
                    append_bytes(&mut self.buffer, frame.payload.as_slice());
                    self.state = next;
                    Ok(StreamingEvent::ChunkReceived { bytes: chunk_size })
                },
                StreamingState::Idle => Err(StreamingError::StreamNotStarted),
                StreamingState::Complete => Err(StreamingError::StreamAlreadyComplete),
                StreamingState::Error(_) => Err(
                    StreamingError::UnexpectedFrame { expected: FrameType::Chunk, found: FrameType::Error },
                ),
            },
            FrameType::End => match &self.state {
                StreamingState::Streaming { bytes_sent, .. } => {
                    let total_bytes = *bytes_sent;
                    self.state = StreamingState::Complete;
                    Ok(StreamingEvent::StreamComplete { total_bytes })
                },
                StreamingState::Idle => Err(StreamingError::StreamNotStarted),
                StreamingState::Complete => Err(StreamingError::StreamAlreadyComplete),
                StreamingState::Error(_) => Err(
                    StreamingError::UnexpectedFrame { expected: FrameType::End, found: FrameType::Error },
                ),
            },
            FrameType::Error => {
                let message = utf8_lossy(frame.payload.as_slice());
                self.state = StreamingState::Error(message.clone());
                Ok(StreamingEvent::StreamError { message })
            },
        }
    }

    /// The whole payload, once the stream has ended.
    pub fn get_complete_payload(&self) -> (r: Option<&[u8]>)
        ensures
            self.state == StreamingState::Complete ==> (r matches Some(p) && p@ == self.buffer@),
            self.state != StreamingState::Complete ==> r is None,
    {
        match &self.state {
            StreamingState::Complete => Some(self.buffer.as_slice()),
            _ => None,
        }
    }

    /// State of the stream.
    pub fn state(&self) -> (s: &StreamingState)
        ensures
            *s == self.state,
    {
        &self.state
    }

    /// Reads one frame from `bytes`.
    fn decode_frame(&self, bytes: &[u8]) -> (r: Result<StreamingFrame, StreamingError>)
        requires
            frame_end_fits(bytes@),
        ensures
            frame_result(r) == parse_stream_frame(bytes@),
    {
        let n = bytes.len();
        if n < 7 {
            return Err(StreamingError::BinaryError(BinaryError::UnexpectedEof { expected: 7, found: n }));
        }
        let frame_type = match FrameType::from_u8(bytes[0]) {
            Ok(t) => t,
            Err(e) => return Err(e),
        };
        let flags = FrameFlags::from_u8(bytes[1]);
        let rest = vstd::slice::slice_subrange(bytes, 2, n);
        assert(rest@ =~= bytes@.skip(2));
        let (size_value, varint_len) = match varint::decode(rest) {
            Ok(p) => p,
            Err(e) => return Err(StreamingError::BinaryError(e)),
        };
        let chunk_size = size_value as usize;
        let pos = 2 + varint_len;
        if pos + 4 > n {
            return Err(StreamingError::BinaryError(BinaryError::UnexpectedEof { expected: pos + 4, found: n }));
        }
        let checksum = read_le32(bytes, pos);
        let start = pos + 4;
        if start + chunk_size > n {
            return Err(
                StreamingError::BinaryError(BinaryError::UnexpectedEof { expected: start + chunk_size, found: n }),
            );
        }
        let mut payload: Vec<u8> = Vec::new();
        append_bytes(&mut payload, vstd::slice::slice_subrange(bytes, start, start + chunk_size));
        Ok(StreamingFrame { frame_type, flags, chunk_size, checksum, payload })
    }
}

impl Default for StreamingDecoder {
    fn default() -> (d: Self)
        ensures
            d.config == StreamingConfig::spec_new(),
            d.state == StreamingState::Idle,
            d.buffer@ == Seq::<u8>::empty(),
    {
        Self::new()
    }
}

/// A frame read from `b` carries no more payload than `b` has bytes.
proof fn lemma_payload_within(b: Seq<u8>)
    ensures
        parse_stream_frame(b) matches Ok(f) ==> f.payload.len() <= b.len(),
{
}

/// The text that `String::from_utf8_lossy` makes of some bytes: the bytes read
/// as UTF-8, each invalid sequence replaced by U+FFFD.
pub uninterp spec fn lossy_text(b: Seq<u8>) -> Seq<char>;

/// The text of `bytes` read as UTF-8, with each invalid sequence replaced by
/// U+FFFD.
///
/// Calls `String::from_utf8_lossy`. Claimed: the result is `lossy_text` of
/// the bytes (it depends on them alone), and on valid UTF-8 it is the text
/// the bytes encode.
#[verifier::external_body]
fn utf8_lossy(bytes: &[u8]) -> (s: String)
    ensures
        s@ == lossy_text(bytes@),
        valid_utf8(bytes@) ==> s@ == decode_utf8(bytes@),
{
    String::from_utf8_lossy(bytes).into_owned()
}

/// Flow control: how many bytes may be in flight, sent and not yet acknowledged.
#[derive(Debug, Clone, PartialEq, Eq, Structural)]
pub struct BackpressureController {
    /// Largest number of bytes in flight.
    pub window_size: usize,
    /// Bytes sent and not yet acknowledged.
    pub bytes_in_flight: usize,
}

impl BackpressureController {
    /// A controller with a 64 KiB window and nothing in flight.
    pub fn new() -> (c: Self)
        ensures
            c.window_size == 65536,
            c.bytes_in_flight == 0,
    {
        BackpressureController { window_size: 65536, bytes_in_flight: 0 }
    }

    /// A controller with the given window and nothing in flight.
    pub fn with_window_size(window_size: usize) -> (c: Self)
        ensures
            c.window_size == window_size,
            c.bytes_in_flight == 0,
    {
        BackpressureController { window_size, bytes_in_flight: 0 }
    }

    /// Whether the window has room left.
    pub fn can_send(&self) -> (b: bool)
        ensures
            b == (self.bytes_in_flight < self.window_size),
    {
        self.bytes_in_flight < self.window_size
    }

    /// Room left in the window, zero when it is full or over-full.
    pub fn available_window(&self) -> (n: usize)
        ensures
            n == (if self.bytes_in_flight <= self.window_size {
                self.window_size - self.bytes_in_flight
            } else {
                0
            }),
    {
        self.window_size.saturating_sub(self.bytes_in_flight)
    }

    /// Records `size` more bytes in flight, saturating at the largest `usize`.
    pub fn on_chunk_sent(&mut self, size: usize)
        ensures
            final(self).window_size == old(self).window_size,
            final(self).bytes_in_flight == (if old(self).bytes_in_flight + size <= usize::MAX {
                old(self).bytes_in_flight + size
            } else {
                usize::MAX as int
            }),
    {
        self.bytes_in_flight = self.bytes_in_flight.saturating_add(size);
    }

    /// Records `size` bytes acknowledged, never going below zero.
    pub fn on_chunk_acked(&mut self, size: usize)
        ensures
            final(self).window_size == old(self).window_size,
            final(self).bytes_in_flight == (if old(self).bytes_in_flight >= size {
                old(self).bytes_in_flight - size
            } else {
                0
            }),
    {
        self.bytes_in_flight = self.bytes_in_flight.saturating_sub(size);
    }

    /// The window size.
    pub fn window_size(&self) -> (n: usize)
        ensures
            n == self.window_size,
    {
        self.window_size
    }

    /// Bytes in flight.
    pub fn bytes_in_flight(&self) -> (n: usize)
        ensures
            n == self.bytes_in_flight,
    {
        self.bytes_in_flight
    }

    /// Forgets everything in flight.
    pub fn reset(&mut self)
        ensures
            final(self).window_size == old(self).window_size,
            final(self).bytes_in_flight == 0,
    {
        self.bytes_in_flight = 0;
    }
}

impl Default for BackpressureController {
    fn default() -> (c: Self)
        ensures
            c.window_size == 65536,
            c.bytes_in_flight == 0,
    {
        Self::new()
    }
}


/// The frame as a decoder reads it back: the checksum survives only in
/// chunk frames written with checksums on.
pub open spec fn frame_as_read(f: FrameModel, checksums: bool) -> FrameModel {
    FrameModel {
        checksum: if f.frame_type == FrameType::Chunk && checksums {
            f.checksum
        } else {
            0
        },
        ..f
    }
}

/// A frame whose size field is the length of its payload.
pub open spec fn well_sized(f: FrameModel) -> bool {
    f.chunk_size == f.payload.len() && f.payload.len() <= i64::MAX
}

/// Reading a written frame gives the frame back (with the checksum as
/// written), and the frame passes the decoder's size requirement.
pub proof fn lemma_frame_roundtrip(f: FrameModel, checksums: bool)
    requires
        well_sized(f),
    ensures
        parse_stream_frame(frame_bytes(f, checksums)) == Ok::<FrameModel, StreamingErrorModel>(
            frame_as_read(f, checksums),
        ),
        frame_bytes(f, checksums).len() <= usize::MAX ==> frame_end_fits(frame_bytes(f, checksums)),
        frame_bytes(f, checksums).len() == 6 + sleb128((f.chunk_size as i64) as int).len() + f.payload.len(),
{
    let b = frame_bytes(f, checksums);
    let enc = sleb128((f.chunk_size as i64) as int);
    let ck = if f.frame_type == FrameType::Chunk && checksums {
        le32(f.checksum)
    } else {
        seq![0u8, 0u8, 0u8, 0u8]
    };
    let rest = ck + f.payload;
    lemma_varint_roundtrip(f.chunk_size as i64, rest);
    lemma_flags_roundtrip(f.flags, 0);
    assert(b =~= seq![frame_type_byte(f.frame_type), flags_byte(f.flags)] + (enc + rest));
    assert(b.skip(2) =~= enc + rest);
    let n = enc.len();
    let pos: int = 2 + n as int;
    assert(size_of_varint((f.chunk_size as i64) as int) == f.chunk_size);
    assert(b.subrange(pos, pos + 4) =~= ck);
    assert(b.subrange(pos + 4, pos + 4 + f.chunk_size) =~= f.payload);
    if f.frame_type == FrameType::Chunk && checksums {
        super::wire::lemma_le32_inverse(f.checksum);
    } else {
        super::wire::lemma_le32_inverse(0);
        assert(le32(0) =~= seq![0u8, 0u8, 0u8, 0u8]);
    }
    assert(frame_type_of(frame_type_byte(f.frame_type)) == Some(f.frame_type));
}

/// The frames written by a chunk after chunk, in order.
pub open spec fn chunk_frames(chunks: Seq<Seq<u8>>, checksums: bool) -> Seq<Seq<u8>> {
    chunks.map_values(|c: Seq<u8>| frame_bytes(chunk_model(c, false), checksums))
}

/// The frames an encoder writes for a stream carrying `chunks`: BEGIN, one
/// CHUNK per element, END.
pub open spec fn session_frames(chunks: Seq<Seq<u8>>, checksums: bool) -> Seq<Seq<u8>> {
    seq![frame_bytes(begin_model(), checksums)] + chunk_frames(chunks, checksums) + seq![
        frame_bytes(end_model(), checksums),
    ]
}

/// A decoder fed `frames` one after another: its state and buffer at the
/// end, or `None` if a frame is refused or fails the stream.
#[verifier::opaque]
pub open spec fn run_decoder(st: StreamingState, buf: Seq<u8>, checks: bool, frames: Seq<Seq<u8>>) -> Option<
    (StreamingState, Seq<u8>),
>
    decreases frames.len(),
{
    if frames.len() == 0 {
        Some((st, buf))
    } else {
        match parse_stream_frame(frames[0]) {
            Err(_) => None,
            Ok(f) => if f.frame_type == FrameType::Error {
                None
            } else {
                let (st2, buf2, ev) = decoder_step(st, buf, checks, f);
                if ev is Err {
                    None
                } else {
                    run_decoder(st2, buf2, checks, frames.drop_first())
                }
            },
        }
    }
}

/// Feeding the chunk frames of `chunks` to an open stream adds their bytes to
/// the buffer and the counters, and refuses none of them.
pub proof fn lemma_run_chunks(
    bytes_sent: usize,
    chunks_sent: usize,
    buf: Seq<u8>,
    checks: bool,
    checksums: bool,
    chunks: Seq<Seq<u8>>,
    rest: Seq<Seq<u8>>,
)
    requires
        checks ==> checksums,
        bytes_sent + chunks.flatten().len() <= usize::MAX,
        chunks.flatten().len() <= i64::MAX,
        chunks_sent + chunks.len() <= usize::MAX,
    ensures
        run_decoder(
            StreamingState::Streaming { bytes_sent, chunks_sent },
            buf,
            checks,
            chunk_frames(chunks, checksums) + rest,
        ) == run_decoder(
            StreamingState::Streaming {
                bytes_sent: (bytes_sent + chunks.flatten().len()) as usize,
                chunks_sent: (chunks_sent + chunks.len()) as usize,
            },
            buf + chunks.flatten(),
            checks,
            rest,
        ),
    decreases chunks.len(),
{
    if chunks.len() == 0 {
        assert(chunks.flatten() =~= Seq::<u8>::empty());
        assert(chunk_frames(chunks, checksums) + rest =~= rest);
        assert(buf + chunks.flatten() =~= buf);
    } else {
        let c = chunks[0];
        let tail = chunks.drop_first();
        assert(chunks.flatten() == c + tail.flatten());
        let frames = chunk_frames(chunks, checksums) + rest;
        assert(frames[0] == frame_bytes(chunk_model(c, false), checksums));
        assert(frames.drop_first() =~= chunk_frames(tail, checksums) + rest);
        lemma_chunk_step(bytes_sent, chunks_sent, buf, checks, checksums, c, frames);
        let b2 = (bytes_sent + c.len()) as usize;
        let c2 = (chunks_sent + 1) as usize;
        lemma_run_chunks(b2, c2, buf + c, checks, checksums, tail, rest);
        assert(buf + c + tail.flatten() =~= buf + chunks.flatten());
    }
}

/// One chunk frame at the head of `frames` moves an open stream on by its
/// payload.
proof fn lemma_chunk_step(
    bytes_sent: usize,
    chunks_sent: usize,
    buf: Seq<u8>,
    checks: bool,
    checksums: bool,
    c: Seq<u8>,
    frames: Seq<Seq<u8>>,
)
    requires
        checks ==> checksums,
        bytes_sent + c.len() <= usize::MAX,
        c.len() <= i64::MAX,
        chunks_sent < usize::MAX,
        frames.len() > 0,
        frames[0] == frame_bytes(chunk_model(c, false), checksums),
    ensures
        run_decoder(StreamingState::Streaming { bytes_sent, chunks_sent }, buf, checks, frames)
            == run_decoder(
            StreamingState::Streaming {
                bytes_sent: (bytes_sent + c.len()) as usize,
                chunks_sent: (chunks_sent + 1) as usize,
            },
            buf + c,
            checks,
            frames.drop_first(),
        ),
{
    reveal(run_decoder);
    lemma_frame_roundtrip(chunk_model(c, false), checksums);
    let f = frame_as_read(chunk_model(c, false), checksums);
    assert(parse_stream_frame(frames[0]) == Ok::<FrameModel, StreamingErrorModel>(f));
    assert(f.payload == c);
    assert(!(checks && xor_checksum(f.payload) != f.checksum));
}

/// What a decoder reads is what an encoder wrote: fed the frames of a whole
/// stream, a decoder that is not in the middle of a stream ends complete,
/// holding the chunks one after another. (A decoder that checks checksums
/// needs an encoder that writes them.)
pub proof fn lemma_stream_roundtrip(
    st: StreamingState,
    buf: Seq<u8>,
    checks: bool,
    checksums: bool,
    chunks: Seq<Seq<u8>>,
)
    requires
        !(st is Streaming),
        checks ==> checksums,
        chunks.flatten().len() <= usize::MAX,
        chunks.flatten().len() <= i64::MAX,
        chunks.len() <= usize::MAX,
    ensures
        run_decoder(st, buf, checks, session_frames(chunks, checksums)) == Some(
            (StreamingState::Complete, chunks.flatten()),
        ),
{
    reveal(run_decoder);
    let frames = session_frames(chunks, checksums);
    let endf = seq![frame_bytes(end_model(), checksums)];
    lemma_frame_roundtrip(begin_model(), checksums);
    lemma_frame_roundtrip(end_model(), checksums);
    assert(frames[0] == frame_bytes(begin_model(), checksums));
    assert(frames.drop_first() =~= chunk_frames(chunks, checksums) + endf);
    lemma_run_chunks(0, 0, Seq::empty(), checks, checksums, chunks, endf);
    assert(Seq::<u8>::empty() + chunks.flatten() =~= chunks.flatten());
    let st2 = StreamingState::Streaming {
        bytes_sent: chunks.flatten().len() as usize,
        chunks_sent: chunks.len() as usize,
    };
    assert(endf.drop_first() =~= Seq::<Seq<u8>>::empty());
    reveal_with_fuel(run_decoder, 2);
    assert(run_decoder(st2, chunks.flatten(), checks, endf) == Some(
        (StreamingState::Complete, chunks.flatten()),
    ));
}

/// What a decoder fed `frames` one after another reports, frame by frame,
/// up to the first frame it refuses or that fails the stream.
#[verifier::opaque]
pub open spec fn run_events(st: StreamingState, buf: Seq<u8>, checks: bool, frames: Seq<Seq<u8>>) -> Seq<
    StreamingEvent,
>
    decreases frames.len(),
{
    if frames.len() == 0 {
        Seq::empty()
    } else {
        match parse_stream_frame(frames[0]) {
            Err(_) => Seq::empty(),
            Ok(f) => if f.frame_type == FrameType::Error {
                Seq::empty()
            } else {
                let (st2, buf2, ev) = decoder_step(st, buf, checks, f);
                match ev {
                    Err(_) => Seq::empty(),
                    Ok(e) => seq![e] + run_events(st2, buf2, checks, frames.drop_first()),
                }
            },
        }
    }
}

/// The reports for chunks, one per chunk with its size.
pub open spec fn chunk_events(chunks: Seq<Seq<u8>>) -> Seq<StreamingEvent> {
    chunks.map_values(|c: Seq<u8>| StreamingEvent::ChunkReceived { bytes: c.len() as usize })
}

/// Feeding the chunk frames of `chunks` to an open stream reports each chunk
/// with its size, then whatever the rest reports.
proof fn lemma_chunk_events(
    bytes_sent: usize,
    chunks_sent: usize,
    buf: Seq<u8>,
    checks: bool,
    checksums: bool,
    chunks: Seq<Seq<u8>>,
    rest: Seq<Seq<u8>>,
)
    requires
        checks ==> checksums,
        bytes_sent + chunks.flatten().len() <= usize::MAX,
        chunks.flatten().len() <= i64::MAX,
        chunks_sent + chunks.len() <= usize::MAX,
    ensures
        run_events(
            StreamingState::Streaming { bytes_sent, chunks_sent },
            buf,
            checks,
            chunk_frames(chunks, checksums) + rest,
        ) == chunk_events(chunks) + run_events(
            StreamingState::Streaming {
                bytes_sent: (bytes_sent + chunks.flatten().len()) as usize,
                chunks_sent: (chunks_sent + chunks.len()) as usize,
            },
            buf + chunks.flatten(),
            checks,
            rest,
        ),
    decreases chunks.len(),
{
    if chunks.len() == 0 {
        assert(chunks.flatten() =~= Seq::<u8>::empty());
        assert(chunk_frames(chunks, checksums) + rest =~= rest);
        assert(buf + chunks.flatten() =~= buf);
        assert(chunk_events(chunks) =~= Seq::<StreamingEvent>::empty());
        assert(Seq::<StreamingEvent>::empty() + run_events(
            StreamingState::Streaming { bytes_sent, chunks_sent },
            buf,
            checks,
            rest,
        ) =~= run_events(StreamingState::Streaming { bytes_sent, chunks_sent }, buf, checks, rest));
    } else {
        let c = chunks[0];
        let tail = chunks.drop_first();
        assert(chunks.flatten() == c + tail.flatten());
        let frames = chunk_frames(chunks, checksums) + rest;
        assert(frames[0] == frame_bytes(chunk_model(c, false), checksums));
        assert(frames.drop_first() =~= chunk_frames(tail, checksums) + rest);
        let b2 = (bytes_sent + c.len()) as usize;
        let c2 = (chunks_sent + 1) as usize;
        lemma_chunk_event_step(bytes_sent, chunks_sent, buf, checks, checksums, c, frames);
        lemma_chunk_events(b2, c2, buf + c, checks, checksums, tail, rest);
        assert(buf + c + tail.flatten() =~= buf + chunks.flatten());
        assert(chunk_events(chunks) =~= seq![StreamingEvent::ChunkReceived { bytes: c.len() as usize }]
            + chunk_events(tail));
        let later = run_events(
            StreamingState::Streaming {
                bytes_sent: (bytes_sent + chunks.flatten().len()) as usize,
                chunks_sent: (chunks_sent + chunks.len()) as usize,
            },
            buf + chunks.flatten(),
            checks,
            rest,
        );
        assert(seq![StreamingEvent::ChunkReceived { bytes: c.len() as usize }] + (chunk_events(tail) + later)
            =~= chunk_events(chunks) + later);
    }
}

/// One chunk frame at the head of `frames` is reported with its size.
proof fn lemma_chunk_event_step(
    bytes_sent: usize,
    chunks_sent: usize,
    buf: Seq<u8>,
    checks: bool,
    checksums: bool,
    c: Seq<u8>,
    frames: Seq<Seq<u8>>,
)
    requires
        checks ==> checksums,
        bytes_sent + c.len() <= usize::MAX,
        c.len() <= i64::MAX,
        chunks_sent < usize::MAX,
        frames.len() > 0,
        frames[0] == frame_bytes(chunk_model(c, false), checksums),
    ensures
        run_events(StreamingState::Streaming { bytes_sent, chunks_sent }, buf, checks, frames) == seq![
            StreamingEvent::ChunkReceived { bytes: c.len() as usize },
        ] + run_events(
            StreamingState::Streaming {
                bytes_sent: (bytes_sent + c.len()) as usize,
                chunks_sent: (chunks_sent + 1) as usize,
            },
            buf + c,
            checks,
            frames.drop_first(),
        ),
{
    reveal(run_events);
    lemma_frame_roundtrip(chunk_model(c, false), checksums);
    let f = frame_as_read(chunk_model(c, false), checksums);
    assert(parse_stream_frame(frames[0]) == Ok::<FrameModel, StreamingErrorModel>(f));
    assert(f.payload == c);
    assert(!(checks && xor_checksum(f.payload) != f.checksum));
}

/// What a decoder reports is what an encoder wrote: fed the frames of a whole
/// stream, a decoder that is not in the middle of a stream reports the start,
/// each chunk with its size, and the completion with the total size.
pub proof fn lemma_stream_events(
    st: StreamingState,
    buf: Seq<u8>,
    checks: bool,
    checksums: bool,
    chunks: Seq<Seq<u8>>,
)
    requires
        !(st is Streaming),
        checks ==> checksums,
        chunks.flatten().len() <= usize::MAX,
        chunks.flatten().len() <= i64::MAX,
        chunks.len() <= usize::MAX,
    ensures
        run_events(st, buf, checks, session_frames(chunks, checksums)) == seq![StreamingEvent::StreamStarted]
            + chunk_events(chunks) + seq![
            StreamingEvent::StreamComplete { total_bytes: chunks.flatten().len() as usize },
        ],
{
    reveal(run_events);
    let frames = session_frames(chunks, checksums);
    let endf = seq![frame_bytes(end_model(), checksums)];
    lemma_frame_roundtrip(begin_model(), checksums);
    lemma_frame_roundtrip(end_model(), checksums);
    assert(frames[0] == frame_bytes(begin_model(), checksums));
    assert(frames.drop_first() =~= chunk_frames(chunks, checksums) + endf);
    lemma_chunk_events(0, 0, Seq::empty(), checks, checksums, chunks, endf);
    assert(Seq::<u8>::empty() + chunks.flatten() =~= chunks.flatten());
    let st2 = StreamingState::Streaming {
        bytes_sent: chunks.flatten().len() as usize,
        chunks_sent: chunks.len() as usize,
    };
    assert(endf.drop_first() =~= Seq::<Seq<u8>>::empty());
    reveal_with_fuel(run_events, 2);
    let done = seq![StreamingEvent::StreamComplete { total_bytes: chunks.flatten().len() as usize }];
    assert(run_events(st2, chunks.flatten(), checks, endf) =~= done);
    assert(seq![StreamingEvent::StreamStarted] + (chunk_events(chunks) + done) =~= seq![
        StreamingEvent::StreamStarted,
    ] + chunk_events(chunks) + done);
}

} // verus!
