//! Schema negotiation: two parties exchange capabilities, agree on a schema
//! and field identifiers, and discover each other's field registry.

use vstd::prelude::*;
use std::collections::{HashMap, HashSet};
use vstd::std_specs::iter::IteratorSpec;
use super::types::{TypeTag, type_tag_name};
use crate::numfmt::{decimal, hex_digits, push_char, push_str, push_decimal, push_hex, string_of};
use crate::error::chars_of;

verus! {

broadcast use vstd::std_specs::hash::group_hash_axioms;

/// Optional protocol features.
#[derive(Debug, Clone, Copy, PartialEq, Eq, Structural)]
pub struct FeatureFlags {
    /// Nested structures.
    pub supports_nested: bool,
    /// The streaming frame layer.
    pub supports_streaming: bool,
    /// Delta encoding.
    pub supports_delta: bool,
    /// The LLM optimisation layer.
    pub supports_llb: bool,
    /// Checksums are required.
    pub requires_checksums: bool,
    /// Canonical field order is required.
    pub requires_canonical: bool,
}

impl FeatureFlags {
    /// No feature.
    pub fn new() -> (f: Self)
        ensures
            f == (FeatureFlags {
                supports_nested: false,
                supports_streaming: false,
                supports_delta: false,
                supports_llb: false,
                requires_checksums: false,
                requires_canonical: false,
            }),
    {
        FeatureFlags {
            supports_nested: false,
            supports_streaming: false,
            supports_delta: false,
            supports_llb: false,
            requires_checksums: false,
            requires_canonical: false,
        }
    }

    /// Every feature of v0.5.
    pub fn v0_5_full() -> (f: Self)
        ensures
            f == (FeatureFlags {
                supports_nested: true,
                supports_streaming: true,
                supports_delta: true,
                supports_llb: true,
                requires_checksums: true,
                requires_canonical: true,
            }),
    {
        FeatureFlags {
            supports_nested: true,
            supports_streaming: true,
            supports_delta: true,
            supports_llb: true,
            requires_checksums: true,
            requires_canonical: true,
        }
    }

    /// The features of v0.4: canonical order only.
    pub fn v0_4_compatible() -> (f: Self)
        ensures
            f == (FeatureFlags {
                supports_nested: false,
                supports_streaming: false,
                supports_delta: false,
                supports_llb: false,
                requires_checksums: false,
                requires_canonical: true,
            }),
    {
        FeatureFlags {
            supports_nested: false,
            supports_streaming: false,
            supports_delta: false,
            supports_llb: false,
            requires_checksums: false,
            requires_canonical: true,
        }
    }

    /// The agreed features: a feature is supported when both support it, and
    /// a requirement holds when either requires it.
    pub fn intersect(&self, other: &FeatureFlags) -> (f: FeatureFlags)
        ensures
            f == agreed_features(*self, *other),
    {
        FeatureFlags {
            supports_nested: self.supports_nested && other.supports_nested,
            supports_streaming: self.supports_streaming && other.supports_streaming,
            supports_delta: self.supports_delta && other.supports_delta,
            supports_llb: self.supports_llb && other.supports_llb,
            requires_checksums: self.requires_checksums || other.requires_checksums,
            requires_canonical: self.requires_canonical || other.requires_canonical,
        }
    }
}

impl FeatureFlags {
    /// Every feature of v0.5.
    pub open spec fn spec_v0_5_full() -> FeatureFlags {
        FeatureFlags {
            supports_nested: true,
            supports_streaming: true,
            supports_delta: true,
            supports_llb: true,
            requires_checksums: true,
            requires_canonical: true,
        }
    }

    /// The features of v0.4.
    pub open spec fn spec_v0_4_compatible() -> FeatureFlags {
        FeatureFlags {
            supports_nested: false,
            supports_streaming: false,
            supports_delta: false,
            supports_llb: false,
            requires_checksums: false,
            requires_canonical: true,
        }
    }
}

/// Features agreed between `a` and `b`.
pub open spec fn agreed_features(a: FeatureFlags, b: FeatureFlags) -> FeatureFlags {
    FeatureFlags {
        supports_nested: a.supports_nested && b.supports_nested,
        supports_streaming: a.supports_streaming && b.supports_streaming,
        supports_delta: a.supports_delta && b.supports_delta,
        supports_llb: a.supports_llb && b.supports_llb,
        requires_checksums: a.requires_checksums || b.requires_checksums,
        requires_canonical: a.requires_canonical || b.requires_canonical,
    }
}

/// Agreement is symmetric and associative, agreeing with oneself changes
/// nothing, and agreeing again with either party changes nothing either. A
/// peer that supports everything and requires nothing leaves the other's
/// features as they are; one that supports nothing and requires everything
/// imposes exactly that.
pub proof fn lemma_agreed_features(a: FeatureFlags, b: FeatureFlags, c: FeatureFlags)
    ensures
        agreed_features(a, b) == agreed_features(b, a),
        agreed_features(agreed_features(a, b), c) == agreed_features(a, agreed_features(b, c)),
        agreed_features(a, a) == a,
        agreed_features(agreed_features(a, b), b) == agreed_features(a, b),
        agreed_features(
            a,
            FeatureFlags {
                supports_nested: true,
                supports_streaming: true,
                supports_delta: true,
                supports_llb: true,
                requires_checksums: false,
                requires_canonical: false,
            },
        ) == a,
        agreed_features(
            a,
            FeatureFlags {
                supports_nested: false,
                supports_streaming: false,
                supports_delta: false,
                supports_llb: false,
                requires_checksums: true,
                requires_canonical: true,
            },
        ) == (FeatureFlags {
            supports_nested: false,
            supports_streaming: false,
            supports_delta: false,
            supports_llb: false,
            requires_checksums: true,
            requires_canonical: true,
        }),
{
}

impl Default for FeatureFlags {
    fn default() -> (f: Self)
        ensures
            f == (FeatureFlags {
                supports_nested: false,
                supports_streaming: false,
                supports_delta: false,
                supports_llb: false,
                requires_checksums: false,
                requires_canonical: false,
            }),
    {
        Self::new()
    }
}

/// Version, features and supported types of a party.
#[derive(Debug, Clone, PartialEq)]
pub struct Capabilities {
    /// Protocol version (0x05 for v0.5).
    pub version: u8,
    /// Features.
    pub features: FeatureFlags,
    /// Type tags supported.
    pub supported_types: Vec<TypeTag>,
}

/// Two capability sets hold the same values.
pub open spec fn same_caps(a: Capabilities, b: Capabilities) -> bool {
    a.version == b.version && a.features == b.features && a.supported_types@ == b.supported_types@
}

/// A copy of a list of type tags.
fn copy_tags(v: &Vec<TypeTag>) -> (r: Vec<TypeTag>)
    ensures
        r@ == v@,
{
    let mut r: Vec<TypeTag> = Vec::new();
    let mut i: usize = 0;
    while i < v.len()
        invariant
            i <= v@.len(),
            r@ == v@.take(i as int),
        decreases v.len() - i,
    {
        r.push(v[i]);
        i = i + 1;
        assert(r@ =~= v@.take(i as int));
    }
    assert(v@.take(v@.len() as int) =~= v@);
    r
}

impl Capabilities {
    /// Capabilities with the given parts.
    pub fn new(version: u8, features: FeatureFlags, supported_types: Vec<TypeTag>) -> (c: Self)
        ensures
            c.version == version,
            c.features == features,
            c.supported_types == supported_types,
    {
        Capabilities { version, features, supported_types }
    }

    /// The capabilities of v0.5: every feature, the five flat types and both
    /// nested types.
    pub fn v0_5() -> (c: Self)
        ensures
            c.version == 0x05,
            c.features == (FeatureFlags {
                supports_nested: true,
                supports_streaming: true,
                supports_delta: true,
                supports_llb: true,
                requires_checksums: true,
                requires_canonical: true,
            }),
            c.supported_types@ == seq![
                TypeTag::Int,
                TypeTag::Float,
                TypeTag::Bool,
                TypeTag::String,
                TypeTag::StringArray,
                TypeTag::NestedRecord,
                TypeTag::NestedArray,
            ],
    {
        let supported_types = vec![
            TypeTag::Int,
            TypeTag::Float,
            TypeTag::Bool,
            TypeTag::String,
            TypeTag::StringArray,
            TypeTag::NestedRecord,
            TypeTag::NestedArray,
        ];
        Capabilities { version: 0x05, features: FeatureFlags::v0_5_full(), supported_types }
    }

    /// The capabilities of v0.4: canonical order and the five flat types.
    pub fn v0_4() -> (c: Self)
        ensures
            c.version == 0x04,
            c.features == (FeatureFlags {
                supports_nested: false,
                supports_streaming: false,
                supports_delta: false,
                supports_llb: false,
                requires_checksums: false,
                requires_canonical: true,
            }),
            c.supported_types@ == seq![
                TypeTag::Int,
                TypeTag::Float,
                TypeTag::Bool,
                TypeTag::String,
                TypeTag::StringArray,
            ],
    {
        let supported_types = vec![
            TypeTag::Int,
            TypeTag::Float,
            TypeTag::Bool,
            TypeTag::String,
            TypeTag::StringArray,
        ];
        Capabilities { version: 0x04, features: FeatureFlags::v0_4_compatible(), supported_types }
    }

    /// Whether `type_tag` is among the supported types.
    pub fn supports_type(&self, type_tag: TypeTag) -> (b: bool)
        ensures
            b == self.supported_types@.contains(type_tag),
    {
        let mut i: usize = 0;
        while i < self.supported_types.len()
            invariant
                i <= self.supported_types@.len(),
                forall|j: int| 0 <= j < i ==> self.supported_types@[j] != type_tag,
            decreases self.supported_types.len() - i,
        {
            if self.supported_types[i] == type_tag {
                return true;
            }
            i = i + 1;
        }
        false
    }

    /// A copy of these capabilities.
    fn duplicate(&self) -> (c: Self)
        ensures
            same_caps(c, *self),
    {
        Capabilities {
            version: self.version,
            features: self.features,
            supported_types: copy_tags(&self.supported_types),
        }
    }
}

/// Status of a registry entry.
#[derive(Debug, Clone, Copy, PartialEq, Eq, Structural)]
pub enum FidDefStatus {
    /// Proposed, not yet active (0x00).
    Proposed,
    /// Active (0x01).
    Active,
    /// Deprecated (0x02).
    Deprecated,
    /// Tombstoned: never to be reused (0x03).
    Tombstoned,
}

/// Byte of a status.
pub open spec fn status_byte(s: FidDefStatus) -> u8 {
    match s {
        FidDefStatus::Proposed => 0x00,
        FidDefStatus::Active => 0x01,
        FidDefStatus::Deprecated => 0x02,
        FidDefStatus::Tombstoned => 0x03,
    }
}

impl FidDefStatus {
    /// The status with byte `value`.
    pub fn from_u8(value: u8) -> (r: Option<Self>)
        ensures
            value <= 0x03 ==> (r matches Some(s) && status_byte(s) == value),
            value > 0x03 ==> r is None,
    {
        match value {
            0x00 => Some(FidDefStatus::Proposed),
            0x01 => Some(FidDefStatus::Active),
            0x02 => Some(FidDefStatus::Deprecated),
            0x03 => Some(FidDefStatus::Tombstoned),
            _ => None,
        }
    }

    /// The byte of this status.
    pub fn to_u8(self) -> (b: u8)
        ensures
            b == status_byte(self),
    {
        match self {
            FidDefStatus::Proposed => 0x00,
            FidDefStatus::Active => 0x01,
            FidDefStatus::Deprecated => 0x02,
            FidDefStatus::Tombstoned => 0x03,
        }
    }
}

/// A registry entry as sent over the wire.
#[derive(Debug, Clone, PartialEq)]
pub struct FidDefinition {
    /// Field identifier.
    pub fid: u16,
    /// Field name.
    pub name: String,
    /// Type of the field.
    pub type_tag: TypeTag,
    /// Status of the entry.
    pub status: FidDefStatus,
    /// Version that introduced it.
    pub since: String,
}

/// Error code carried by an error message.
#[derive(Debug, Clone, Copy, PartialEq, Eq, Structural)]
pub enum ErrorCode {
    /// Identifier conflict (0x01).
    FidConflict,
    /// Type mismatch (0x02).
    TypeMismatch,
    /// Unsupported feature (0x03).
    UnsupportedFeature,
    /// Protocol version mismatch (0x04).
    ProtocolVersionMismatch,
    /// Invalid state (0x05).
    InvalidState,
    /// Any other error (0xFF).
    Generic,
}

/// Byte of an error code.
pub open spec fn code_byte(c: ErrorCode) -> u8 {
    match c {
        ErrorCode::FidConflict => 0x01,
        ErrorCode::TypeMismatch => 0x02,
        ErrorCode::UnsupportedFeature => 0x03,
        ErrorCode::ProtocolVersionMismatch => 0x04,
        ErrorCode::InvalidState => 0x05,
        ErrorCode::Generic => 0xFF,
    }
}

impl ErrorCode {
    /// The error code with byte `byte`.
    pub fn from_u8(byte: u8) -> (r: Option<Self>)
        ensures
            ((1 <= byte <= 5) || byte == 0xFF) ==> (r matches Some(c) && code_byte(c) == byte),
            !((1 <= byte <= 5) || byte == 0xFF) ==> r is None,
    {
        match byte {
            0x01 => Some(ErrorCode::FidConflict),
            0x02 => Some(ErrorCode::TypeMismatch),
            0x03 => Some(ErrorCode::UnsupportedFeature),
            0x04 => Some(ErrorCode::ProtocolVersionMismatch),
            0x05 => Some(ErrorCode::InvalidState),
            0xFF => Some(ErrorCode::Generic),
            _ => None,
        }
    }

    /// The byte of this error code.
    pub fn to_u8(self) -> (b: u8)
        ensures
            b == code_byte(self),
    {
        match self {
            ErrorCode::FidConflict => 0x01,
            ErrorCode::TypeMismatch => 0x02,
            ErrorCode::UnsupportedFeature => 0x03,
            ErrorCode::ProtocolVersionMismatch => 0x04,
            ErrorCode::InvalidState => 0x05,
            ErrorCode::Generic => 0xFF,
        }
    }
}

/// Reading back the byte of a code or a status gives it back.
pub proof fn lemma_code_status_roundtrip(c: ErrorCode, s: FidDefStatus)
    ensures
        (1 <= code_byte(c) <= 5) || code_byte(c) == 0xFF,
        status_byte(s) <= 3,
        forall|d: ErrorCode| code_byte(d) == code_byte(c) ==> d == c,
        forall|t: FidDefStatus| status_byte(t) == status_byte(s) ==> t == s,
{
}

/// A negotiation message.
#[derive(Debug, Clone, PartialEq)]
pub enum NegotiationMessage {
    /// Capabilities of the initiating party.
    Capabilities {
        /// Protocol version.
        version: u8,
        /// Features.
        features: FeatureFlags,
        /// Supported type tags.
        supported_types: Vec<TypeTag>,
    },
    /// Acknowledgement with the other party's capabilities.
    CapabilitiesAck {
        /// Protocol version.
        version: u8,
        /// Features.
        features: FeatureFlags,
    },
    /// Choice of schema and field identifiers.
    SelectSchema {
        /// Schema identifier.
        schema_id: String,
        /// Field names by identifier.
        fid_mappings: HashMap<u16, String>,
    },
    /// The negotiation is complete.
    Ready {
        /// Session identifier.
        session_id: u64,
    },
    /// The negotiation failed.
    Error {
        /// Error code.
        code: ErrorCode,
        /// Error message.
        message: String,
    },
    /// Request for the peer's field registry.
    RequestRegistry {
        /// Range of identifiers asked for (all when absent).
        fid_range: Option<(u16, u16)>,
        /// Whether types are wanted.
        include_types: bool,
        /// Version of the local registry.
        local_version: Option<String>,
    },
    /// A registry.
    RegistryResponse {
        /// Registry version.
        version: String,
        /// Protocol version.
        protocol_version: String,
        /// Entries.
        fids: Vec<FidDefinition>,
    },
    /// Changes between two registry versions.
    RegistryDelta {
        /// Version the changes apply to.
        base_version: String,
        /// Version after the changes.
        target_version: String,
        /// Entries added or changed.
        added: Vec<FidDefinition>,
        /// Deprecated identifiers (still valid).
        deprecated: Vec<u16>,
        /// Tombstoned identifiers (no longer valid).
        tombstoned: Vec<u16>,
    },
}

/// State of a negotiation.
#[derive(Debug, Clone, PartialEq, Eq)]
pub enum NegotiationState {
    /// Nothing sent yet.
    Initial,
    /// Capabilities sent, waiting for the acknowledgement.
    CapabilitiesSent,
    /// Capabilities received from the peer.
    CapabilitiesReceived,
    /// Schema selected, waiting for readiness.
    SchemaSelected,
    /// Negotiation complete.
    Ready,
    /// Negotiation failed.
    Failed(String),
}

/// A copy of a state.
fn copy_state(s: &NegotiationState) -> (r: NegotiationState)
    ensures
        r == *s,
{
    match s {
        NegotiationState::Initial => NegotiationState::Initial,
        NegotiationState::CapabilitiesSent => NegotiationState::CapabilitiesSent,
        NegotiationState::CapabilitiesReceived => NegotiationState::CapabilitiesReceived,
        NegotiationState::SchemaSelected => NegotiationState::SchemaSelected,
        NegotiationState::Ready => NegotiationState::Ready,
        NegotiationState::Failed(m) => NegotiationState::Failed(m.clone()),
    }
}

/// A copy of an optional string.
fn copy_opt_string(o: &Option<String>) -> (r: Option<String>)
    ensures
        r == *o,
{
    match o {
        Some(s) => Some(s.clone()),
        None => None,
    }
}

/// Parameters agreed by a negotiation.
#[derive(Debug, Clone, PartialEq)]
pub struct NegotiationSession {
    /// Session identifier.
    pub session_id: u64,
    /// Local capabilities.
    pub local_caps: Capabilities,
    /// Remote capabilities.
    pub remote_caps: Capabilities,
    /// Features agreed by both.
    pub agreed_features: FeatureFlags,
    /// Field names by identifier.
    pub fid_mappings: HashMap<u16, String>,
}

impl NegotiationSession {
    /// A session whose agreed features are those both parties agree on.
    pub fn new(
        session_id: u64,
        local_caps: Capabilities,
        remote_caps: Capabilities,
        fid_mappings: HashMap<u16, String>,
    ) -> (s: Self)
        ensures
            s.session_id == session_id,
            s.local_caps == local_caps,
            s.remote_caps == remote_caps,
            s.agreed_features == agreed_features(local_caps.features, remote_caps.features),
            s.fid_mappings == fid_mappings,
    {
        let agreed = local_caps.features.intersect(&remote_caps.features);
        NegotiationSession {
            session_id,
            local_caps,
            remote_caps,
            agreed_features: agreed,
            fid_mappings,
        }
    }
}

/// What to do after handling a message.
#[derive(Debug, Clone, PartialEq)]
pub enum NegotiationResponse {
    /// Send this message to the peer.
    SendMessage(NegotiationMessage),
    /// The negotiation is complete.
    Complete(NegotiationSession),
    /// The negotiation failed.
    Failed(String),
    /// Nothing to do.
    NoAction,
}

/// Error of a negotiation.
#[derive(Debug, Clone, PartialEq)]
pub enum NegotiationError {
    /// One identifier names two different fields.
    FidConflict {
        /// The identifier.
        fid: u16,
        /// Local field name.
        name1: String,
        /// Remote field name.
        name2: String,
    },
    /// A field whose type differs between the two sides.
    TypeMismatch {
        /// The identifier.
        fid: u16,
        /// Type expected.
        expected: TypeTag,
        /// Type found.
        found: TypeTag,
    },
    /// A feature the other side does not support.
    UnsupportedFeature {
        /// The feature.
        feature: String,
    },
    /// The two sides speak different protocol versions.
    ProtocolVersionMismatch {
        /// Local version.
        local: u8,
        /// Remote version.
        remote: u8,
    },
    /// A message that the current state does not allow.
    InvalidState {
        /// Current state.
        current: NegotiationState,
        /// State the message needs.
        expected: NegotiationState,
    },
}

/// `fid` names a field on both sides, under different names.
pub open spec fn is_conflict(local: Map<u16, String>, remote: Map<u16, String>, fid: u16) -> bool {
    remote.contains_key(fid) && local.contains_key(fid) && local[fid]@ != remote[fid]@
}

/// Identifier of an error about one field (zero for other errors).
pub open spec fn error_fid(e: NegotiationError) -> u16 {
    match e {
        NegotiationError::FidConflict { fid, .. } => fid,
        NegotiationError::TypeMismatch { fid, .. } => fid,
        _ => 0,
    }
}

/// `e` reports the conflict on its identifier between the two mappings.
pub open spec fn reports_conflict(local: Map<u16, String>, remote: Map<u16, String>, e: NegotiationError) -> bool {
    e matches NegotiationError::FidConflict { fid, name1, name2 } && is_conflict(local, remote, fid)
        && name1@ == local[fid]@ && name2@ == remote[fid]@
}

/// `fid` has a type on both sides, and the types differ.
pub open spec fn is_mismatch(expected: Map<u16, TypeTag>, actual: Map<u16, TypeTag>, fid: u16) -> bool {
    actual.contains_key(fid) && expected.contains_key(fid) && expected[fid] != actual[fid]
}

/// Every conflict between `local` and `remote`, once each, in no particular order.
fn conflicts_between(local: &HashMap<u16, String>, remote: &HashMap<u16, String>) -> (r: Vec<NegotiationError>)
    ensures
        forall|i: int| 0 <= i < r@.len() ==> reports_conflict(local@, remote@, #[trigger] r@[i]),
        forall|fid: u16| is_conflict(local@, remote@, fid) ==> exists|i: int| 0 <= i < r@.len() && error_fid(#[trigger] r@[i]) == fid,
        forall|i: int, j: int| 0 <= i < j < r@.len() ==> error_fid(r@[i]) != error_fid(r@[j]),
{
    let mut conflicts: Vec<NegotiationError> = Vec::new();
    let ghost mut pos: Seq<int> = Seq::empty();
    let ghost s = vstd::std_specs::hash::spec_hash_map_iter(remote).remaining();
    let ghost mut seen: int = 0;
    for (fid, remote_name) in it: remote.iter()
        invariant
            it.seq() == s,
            seen == it.index(),
            pos.len() == conflicts@.len(),
            forall|i: int| 0 <= i < conflicts@.len() ==> reports_conflict(local@, remote@, #[trigger] conflicts@[i]),
            forall|i: int| 0 <= i < pos.len() ==> 0 <= #[trigger] pos[i] < seen && *s[pos[i]].0 == error_fid(conflicts@[i]),
            forall|i: int, j: int| 0 <= i < j < pos.len() ==> pos[i] < pos[j],
            forall|k: int| 0 <= k < seen && is_conflict(local@, remote@, *(#[trigger] s[k]).0) ==> exists|i: int| 0 <= i < pos.len() && pos[i] == k,
    {
        let ghost k = it.index();
        assert(it.seq()[k] == (fid, remote_name));
        assert(remote@.contains_key(*s[k].0) && remote@[*s[k].0] == *s[k].1);
        let ghost old_pos = pos;
        match local.get(fid) {
            Some(local_name) => {
                if *local_name != *remote_name {
                    conflicts.push(NegotiationError::FidConflict { fid: *fid, name1: local_name.clone(), name2: remote_name.clone() });
                    proof {
                        pos = pos.push(k);
                        assert(pos[pos.len() - 1] == k);
                    }
                }
            },
            None => {},
        }
        proof {
            assert forall|j: int| 0 <= j < seen + 1 && is_conflict(local@, remote@, *(#[trigger] s[j]).0) implies exists|i: int| 0 <= i < pos.len() && pos[i] == j by {
                if j < seen {
                    let i = choose|i: int| 0 <= i < old_pos.len() && old_pos[i] == j;
                    assert(pos[i] == j);
                } else {
                    assert(pos[pos.len() - 1] == j);
                }
            }
            seen = seen + 1;
        }
    }
    proof {
        assert(seen == s.len());
        assert forall|i: int, j: int| 0 <= i < j < conflicts@.len() implies error_fid(conflicts@[i]) != error_fid(conflicts@[j]) by {
            let a = pos[i];
            let b = pos[j];
            assert(a < b);
            if *s[a].0 == *s[b].0 {
                assert(s[a] == s[b]);
            }
        }
        assert forall|fid: u16| is_conflict(local@, remote@, fid) implies exists|i: int| 0 <= i < conflicts@.len() && error_fid(#[trigger] conflicts@[i]) == fid by {
            assert(s.contains((&fid, &remote@[fid])));
            let k = choose|k: int| 0 <= k < s.len() && s[k] == (&fid, &remote@[fid]);
            assert(is_conflict(local@, remote@, *s[k].0));
            let i = choose|i: int| 0 <= i < pos.len() && pos[i] == k;
            assert(error_fid(conflicts@[i]) == fid);
        }
    }
    conflicts
}

/// Type mismatches between `expected` and `actual`, ordered by identifier.
fn mismatches_between(expected: &HashMap<u16, TypeTag>, actual: &HashMap<u16, TypeTag>) -> (r: Vec<u16>)
    ensures
        forall|i: int| 0 <= i < r@.len() ==> is_mismatch(expected@, actual@, #[trigger] r@[i]),
        forall|fid: u16| is_mismatch(expected@, actual@, fid) ==> r@.contains(fid),
        forall|i: int, j: int| 0 <= i < j < r@.len() ==> r@[i] < r@[j],
{
    let mut out: Vec<u16> = Vec::new();
    let ghost s = vstd::std_specs::hash::spec_hash_map_iter(actual).remaining();
    let ghost mut seen: int = 0;
    for (fid, actual_type) in it: actual.iter()
        invariant
            it.seq() == s,
            s.no_duplicates(),
            seen == it.index(),
            forall|i: int| 0 <= i < out@.len() ==> is_mismatch(expected@, actual@, #[trigger] out@[i]),
            forall|i: int, j: int| 0 <= i < j < out@.len() ==> out@[i] < out@[j],
            forall|i: int| 0 <= i < out@.len() ==> key_among(s, seen, #[trigger] out@[i]),
            forall|k: int| 0 <= k < seen && is_mismatch(expected@, actual@, *(#[trigger] s[k]).0) ==> out@.contains(*s[k].0),
    {
        let ghost k = it.index();
        assert(it.seq()[k] == (fid, actual_type));
        assert(actual@.contains_key(*s[k].0) && actual@[*s[k].0] == *s[k].1);
        let ghost before = out@;
        match expected.get(fid) {
            Some(expected_type) => {
                if *expected_type != *actual_type {
                    proof {
                        assert forall|i: int| 0 <= i < out@.len() implies out@[i] != *fid by {
                            assert(key_among(s, seen, out@[i]));
                            let k2 = choose|k2: int| 0 <= k2 < seen && *(#[trigger] s[k2]).0 == out@[i];
                            assert(actual@.contains_key(*s[k2].0) && actual@[*s[k2].0] == *s[k2].1);
                            if out@[i] == *fid {
                                assert(s[k2] == s[k]);
                                assert(k2 != k);
                            }
                            if out@[i] == *fid {
                                assert(s[k2] == s[k]);
                            }
                        }
                    }
                    let mut p: usize = 0;
                    while p < out.len() && out[p] < *fid
                        invariant
                            p <= out@.len(),
                            out@ == before,
                            forall|i: int| 0 <= i < p ==> out@[i] < *fid,
                        decreases out.len() - p,
                    {
                        p = p + 1;
                    }
                    out.insert(p, *fid);
                    proof {
                        assert forall|i: int, j: int| 0 <= i < j < out@.len() implies out@[i] < out@[j] by {
                            if j < p {
                            } else if j == p {
                            } else if i < p {
                                assert(before[j - 1] > *fid || before[j - 1] == *fid || before[j - 1] < *fid);
                                if p < before.len() {
                                    assert(before[p as int] >= *fid);
                                    assert(before[p as int] != *fid);
                                }
                            } else if i == p {
                                if p < before.len() {
                                    assert(before[p as int] != *fid);
                                }
                            }
                        }
                        assert forall|i: int| 0 <= i < out@.len() implies key_among(s, seen + 1, #[trigger] out@[i]) by {
                            if i < p {
                                assert(out@[i] == before[i]);
                                assert(key_among(s, seen, before[i]));
                            } else if i == p {
                                assert(*s[k].0 == out@[i]);
                            } else {
                                assert(out@[i] == before[i - 1]);
                                assert(key_among(s, seen, before[i - 1]));
                            }
                        }
                        assert(out@[p as int] == *fid);
                        assert forall|j: int| 0 <= j < seen + 1 && is_mismatch(expected@, actual@, *(#[trigger] s[j]).0) implies out@.contains(*s[j].0) by {
                            if j < seen {
                                let i = choose|i: int| 0 <= i < before.len() && before[i] == *s[j].0;
                                if i < p {
                                    assert(out@[i] == before[i]);
                                } else {
                                    assert(out@[i + 1] == before[i]);
                                }
                            } else {
                                assert(out@[p as int] == *s[j].0);
                            }
                        }
                    }
                }
            },
            None => {},
        }
        proof {
            seen = seen + 1;
        }
    }
    proof {
        assert(seen == s.len());
        assert forall|fid: u16| is_mismatch(expected@, actual@, fid) implies out@.contains(fid) by {
            assert(s.contains((&fid, &actual@[fid])));
            let k = choose|k: int| 0 <= k < s.len() && s[k] == (&fid, &actual@[fid]);
            assert(is_mismatch(expected@, actual@, *s[k].0));
        }
    }
    out
}

/// One of the first `n` entries of `s` has key `x`.
pub open spec fn key_among<V>(s: Seq<(&u16, &V)>, n: int, x: u16) -> bool {
    exists|k: int| 0 <= k < n && *(#[trigger] s[k]).0 == x
}

/// `e` reports the type mismatch on its identifier.
pub open spec fn reports_mismatch(expected: Map<u16, TypeTag>, actual: Map<u16, TypeTag>, e: NegotiationError) -> bool {
    e matches NegotiationError::TypeMismatch { fid, expected: x, found: y } && is_mismatch(expected, actual, fid)
        && x == expected[fid] && y == actual[fid]
}

/// Negotiation state machine of one party.
#[derive(Debug)]
pub struct SchemaNegotiator {
    /// Local capabilities.
    pub local_capabilities: Capabilities,
    /// Capabilities of the peer, once known.
    pub remote_capabilities: Option<Capabilities>,
    /// State of the negotiation.
    pub state: NegotiationState,
    /// Next session identifier to hand out.
    pub next_session_id: u64,
    /// Field names by identifier.
    pub fid_mappings: HashMap<u16, String>,
    /// Field types by identifier.
    pub type_mappings: HashMap<u16, TypeTag>,
    /// Version of the local registry.
    pub local_registry_version: Option<String>,
    /// Version of the peer's registry, once known.
    pub remote_registry_version: Option<String>,
    /// Identifiers both sides agree on.
    pub agreed_fids: HashSet<u16>,
    /// Whether registry discovery has completed.
    pub discovery_complete: bool,
}

/// Registry entries applied one after another to a set of agreed identifiers:
/// active entries join it.
pub open spec fn defs_agreed(a: Set<u16>, defs: Seq<FidDefinition>) -> Set<u16>
    decreases defs.len(),
{
    if defs.len() == 0 {
        a
    } else {
        let r = defs_agreed(a, defs.drop_last());
        if defs.last().status == FidDefStatus::Active {
            r.insert(defs.last().fid)
        } else {
            r
        }
    }
}

/// Applying a registry makes an identifier agreed exactly when it was agreed
/// before or some entry for it is active: a proposed, deprecated or
/// tombstoned entry never makes an identifier agreed, and none is dropped.
pub proof fn lemma_defs_agreed(a: Set<u16>, defs: Seq<FidDefinition>)
    ensures
        forall|g: u16| #[trigger] defs_agreed(a, defs).contains(g) <==> (a.contains(g) || exists|i: int|
            0 <= i < defs.len() && defs[i].fid == g && defs[i].status == FidDefStatus::Active),
    decreases defs.len(),
{
    if defs.len() > 0 {
        let init = defs.drop_last();
        lemma_defs_agreed(a, init);
        assert forall|g: u16| #[trigger] defs_agreed(a, defs).contains(g) <==> (a.contains(g) || exists|i: int|
            0 <= i < defs.len() && defs[i].fid == g && defs[i].status == FidDefStatus::Active) by {
            let last = defs[defs.len() - 1];
            assert(defs.last() == last);
            assert(defs_agreed(a, init).contains(g) <==> (a.contains(g) || exists|i: int|
                0 <= i < init.len() && init[i].fid == g && init[i].status == FidDefStatus::Active));
            if last.fid == g && last.status == FidDefStatus::Active {
                assert(defs[defs.len() - 1].fid == g);
            }
            if exists|i: int| 0 <= i < defs.len() && defs[i].fid == g && defs[i].status == FidDefStatus::Active {
                let i = choose|i: int| 0 <= i < defs.len() && defs[i].fid == g && defs[i].status == FidDefStatus::Active;
                if i < init.len() {
                    assert(init[i] == defs[i]);
                }
            }
            if exists|i: int| 0 <= i < init.len() && init[i].fid == g && init[i].status == FidDefStatus::Active {
                let i = choose|i: int| 0 <= i < init.len() && init[i].fid == g && init[i].status == FidDefStatus::Active;
                assert(defs[i] == init[i]);
            }
        }
    }
}

/// Registry entries applied one after another to a type mapping.
pub open spec fn defs_types(m: Map<u16, TypeTag>, defs: Seq<FidDefinition>) -> Map<u16, TypeTag>
    decreases defs.len(),
{
    if defs.len() == 0 {
        m
    } else {
        defs_types(m, defs.drop_last()).insert(defs.last().fid, defs.last().type_tag)
    }
}

/// Registry entries applied one after another to a name mapping.
pub open spec fn defs_names(m: Map<u16, String>, defs: Seq<FidDefinition>) -> Map<u16, String>
    decreases defs.len(),
{
    if defs.len() == 0 {
        m
    } else {
        defs_names(m, defs.drop_last()).insert(defs.last().fid, defs.last().name)
    }
}

/// The last entry for an identifier sets its type and name.
proof fn lemma_defs_last(m: Map<u16, TypeTag>, names: Map<u16, String>, defs: Seq<FidDefinition>, i: int)
    requires
        0 <= i < defs.len(),
        forall|j: int| i < j < defs.len() ==> defs[j].fid != defs[i].fid,
    ensures
        defs_types(m, defs).contains_key(defs[i].fid),
        defs_types(m, defs)[defs[i].fid] == defs[i].type_tag,
        defs_names(names, defs).contains_key(defs[i].fid),
        defs_names(names, defs)[defs[i].fid] == defs[i].name,
    decreases defs.len(),
{
    let init = defs.drop_last();
    if i < init.len() {
        assert(init[i] == defs[i]);
        assert(defs[defs.len() - 1].fid != defs[i].fid);
        assert forall|j: int| i < j < init.len() implies init[j].fid != init[i].fid by {
            assert(init[j] == defs[j]);
        }
        lemma_defs_last(m, names, init, i);
    }
}

/// An identifier that no entry names keeps its type and name.
proof fn lemma_defs_other(m: Map<u16, TypeTag>, names: Map<u16, String>, defs: Seq<FidDefinition>, g: u16)
    requires
        forall|i: int| 0 <= i < defs.len() ==> defs[i].fid != g,
    ensures
        defs_types(m, defs).contains_key(g) == m.contains_key(g),
        m.contains_key(g) ==> defs_types(m, defs)[g] == m[g],
        defs_names(names, defs).contains_key(g) == names.contains_key(g),
        names.contains_key(g) ==> defs_names(names, defs)[g] == names[g],
    decreases defs.len(),
{
    if defs.len() > 0 {
        let init = defs.drop_last();
        assert(defs[defs.len() - 1].fid != g);
        assert forall|i: int| 0 <= i < init.len() implies init[i].fid != g by {
            assert(init[i] == defs[i]);
        }
        lemma_defs_other(m, names, init, g);
    }
}

/// Applying a registry gives each identifier that an entry names the type
/// and the name of the last entry for it, and leaves the type and name of
/// every other identifier as they were.
pub proof fn lemma_defs_mappings(m: Map<u16, TypeTag>, names: Map<u16, String>, defs: Seq<FidDefinition>)
    ensures
        forall|i: int| #![trigger defs[i]] 0 <= i < defs.len() && (forall|j: int| i < j < defs.len() ==> defs[j].fid != defs[i].fid)
            ==> (defs_types(m, defs).contains_key(defs[i].fid) && defs_types(m, defs)[defs[i].fid] == defs[i].type_tag
            && defs_names(names, defs).contains_key(defs[i].fid) && defs_names(names, defs)[defs[i].fid] == defs[i].name),
        forall|g: u16| #![trigger defs_types(m, defs).contains_key(g)] (forall|i: int| 0 <= i < defs.len() ==> defs[i].fid != g)
            ==> (defs_types(m, defs).contains_key(g) == m.contains_key(g) && (m.contains_key(g) ==> defs_types(m, defs)[g]
            == m[g]) && defs_names(names, defs).contains_key(g) == names.contains_key(g) && (names.contains_key(g)
            ==> defs_names(names, defs)[g] == names[g])),
{
    assert forall|i: int| #![trigger defs[i]] 0 <= i < defs.len() && (forall|j: int| i < j < defs.len() ==> defs[j].fid != defs[i].fid)
        implies (defs_types(m, defs).contains_key(defs[i].fid) && defs_types(m, defs)[defs[i].fid] == defs[i].type_tag
        && defs_names(names, defs).contains_key(defs[i].fid) && defs_names(names, defs)[defs[i].fid]
        == defs[i].name) by {
        lemma_defs_last(m, names, defs, i);
    }
    assert forall|g: u16| #![trigger defs_types(m, defs).contains_key(g)] (forall|i: int| 0 <= i < defs.len() ==> defs[i].fid != g) implies (defs_types(m, defs).contains_key(g)
        == m.contains_key(g) && (m.contains_key(g) ==> defs_types(m, defs)[g] == m[g]) && defs_names(names, defs).contains_key(g)
        == names.contains_key(g) && (names.contains_key(g) ==> defs_names(names, defs)[g] == names[g])) by {
        lemma_defs_other(m, names, defs, g);
    }
}

/// `s` without the identifiers of `ts`.
pub open spec fn without_all(s: Set<u16>, ts: Seq<u16>) -> Set<u16> {
    s.difference(ts.to_set())
}

/// The handshake part of two negotiators is the same.
pub open spec fn same_handshake(a: SchemaNegotiator, b: SchemaNegotiator) -> bool {
    &&& a.local_capabilities == b.local_capabilities
    &&& a.remote_capabilities == b.remote_capabilities
    &&& a.state == b.state
    &&& a.next_session_id == b.next_session_id
    &&& a.local_registry_version == b.local_registry_version
}

/// The registry part of two negotiators is the same.
pub open spec fn same_registry(a: SchemaNegotiator, b: SchemaNegotiator) -> bool {
    &&& a.fid_mappings@ == b.fid_mappings@
    &&& a.type_mappings@ == b.type_mappings@
    &&& a.remote_registry_version == b.remote_registry_version
    &&& a.agreed_fids@ == b.agreed_fids@
    &&& a.discovery_complete == b.discovery_complete
}

impl SchemaNegotiator {
    /// A negotiator in its initial state with no mappings and no registry.
    pub fn new(local_capabilities: Capabilities) -> (n: Self)
        ensures
            n.local_capabilities == local_capabilities,
            n.remote_capabilities is None,
            n.state == NegotiationState::Initial,
            n.next_session_id == 1,
            n.fid_mappings@ == Map::<u16, String>::empty(),
            n.type_mappings@ == Map::<u16, TypeTag>::empty(),
            n.local_registry_version is None,
            n.remote_registry_version is None,
            n.agreed_fids@ == Set::<u16>::empty(),
            !n.discovery_complete,
    {
        SchemaNegotiator {
            local_capabilities,
            remote_capabilities: None,
            state: NegotiationState::Initial,
            next_session_id: 1,
            fid_mappings: HashMap::new(),
            type_mappings: HashMap::new(),
            local_registry_version: None,
            remote_registry_version: None,
            agreed_fids: HashSet::new(),
            discovery_complete: false,
        }
    }

    /// A new negotiator with the capabilities of v0.5.
    pub fn v0_5() -> (n: Self)
        ensures
            n.local_capabilities.version == 0x05,
            n.local_capabilities.features == FeatureFlags::spec_v0_5_full(),
            n.local_capabilities.supported_types@.len() == 7,
            n.remote_capabilities is None,
            n.state == NegotiationState::Initial,
            n.next_session_id == 1,
            n.fid_mappings@ == Map::<u16, String>::empty(),
            n.type_mappings@ == Map::<u16, TypeTag>::empty(),
            n.local_registry_version is None,
            n.remote_registry_version is None,
            n.agreed_fids@ == Set::<u16>::empty(),
            !n.discovery_complete,
    {
        Self::new(Capabilities::v0_5())
    }

    /// A new negotiator with the capabilities of v0.4.
    pub fn v0_4() -> (n: Self)
        ensures
            n.local_capabilities.version == 0x04,
            n.local_capabilities.features == FeatureFlags::spec_v0_4_compatible(),
            n.local_capabilities.supported_types@.len() == 5,
            n.remote_capabilities is None,
            n.state == NegotiationState::Initial,
            n.next_session_id == 1,
            n.fid_mappings@ == Map::<u16, String>::empty(),
            n.type_mappings@ == Map::<u16, TypeTag>::empty(),
            n.local_registry_version is None,
            n.remote_registry_version is None,
            n.agreed_fids@ == Set::<u16>::empty(),
            !n.discovery_complete,
    {
        Self::new(Capabilities::v0_4())
    }

    /// The negotiator with its field names replaced by `mappings`.
    pub fn with_fid_mappings(self, mappings: HashMap<u16, String>) -> (n: Self)
        ensures
            n.fid_mappings == mappings,
            same_handshake(n, self),
            n.type_mappings == self.type_mappings,
            n.remote_registry_version == self.remote_registry_version,
            n.agreed_fids == self.agreed_fids,
            n.discovery_complete == self.discovery_complete,
    {
        SchemaNegotiator { fid_mappings: mappings, ..self }
    }

    /// The negotiator with its field types replaced by `mappings`.
    pub fn with_type_mappings(self, mappings: HashMap<u16, TypeTag>) -> (n: Self)
        ensures
            n.type_mappings == mappings,
            same_handshake(n, self),
            n.fid_mappings == self.fid_mappings,
            n.remote_registry_version == self.remote_registry_version,
            n.agreed_fids == self.agreed_fids,
            n.discovery_complete == self.discovery_complete,
    {
        SchemaNegotiator { type_mappings: mappings, ..self }
    }

    /// The negotiator with its local registry version set.
    pub fn with_registry_version(self, version: String) -> (n: Self)
        ensures
            n.local_registry_version == Some(version),
            n.local_capabilities == self.local_capabilities,
            n.remote_capabilities == self.remote_capabilities,
            n.state == self.state,
            n.next_session_id == self.next_session_id,
            same_registry(n, self),
    {
        SchemaNegotiator { local_registry_version: Some(version), ..self }
    }

    /// Identifiers both sides agree on.
    pub fn agreed_fids(&self) -> (s: &HashSet<u16>)
        ensures
            *s == self.agreed_fids,
    {
        &self.agreed_fids
    }

    /// Whether the peer agreed on `fid`.
    pub fn peer_supports_fid(&self, fid: u16) -> (b: bool)
        ensures
            b == self.agreed_fids@.contains(fid),
    {
        self.agreed_fids.contains(&fid)
    }

    /// Version of the peer's registry, once known.
    pub fn remote_registry_version(&self) -> (v: Option<&str>)
        ensures
            match self.remote_registry_version {
                Some(s) => v matches Some(t) && t@ == s@,
                None => v is None,
            },
    {
        match &self.remote_registry_version {
            Some(s) => Some(s.as_str()),
            None => None,
        }
    }

    /// Whether registry discovery has completed.
    pub fn is_discovery_complete(&self) -> (b: bool)
        ensures
            b == self.discovery_complete,
    {
        self.discovery_complete
    }

    /// A request for the peer's registry, with types, carrying the local
    /// registry version.
    pub fn request_registry(&self, fid_range: Option<(u16, u16)>) -> (m: NegotiationMessage)
        ensures
            m == (NegotiationMessage::RequestRegistry {
                fid_range,
                include_types: true,
                local_version: self.local_registry_version,
            }),
    {
        NegotiationMessage::RequestRegistry {
            fid_range,
            include_types: true,
            local_version: copy_opt_string(&self.local_registry_version),
        }
    }

    /// Applies a registry: active entries become agreed identifiers, and
    /// every entry sets the type and name of its identifier; discovery is
    /// then complete.
    pub fn handle_registry_response(&mut self, version: String, fids: Vec<FidDefinition>)
        ensures
            final(self).remote_registry_version == Some(version),
            final(self).agreed_fids@ == defs_agreed(old(self).agreed_fids@, fids@),
            forall|g: u16| #[trigger] final(self).agreed_fids@.contains(g) <==> (old(self).agreed_fids@.contains(g)
                || exists|i: int| 0 <= i < fids@.len() && fids@[i].fid == g && fids@[i].status == FidDefStatus::Active),
            final(self).type_mappings@ == defs_types(old(self).type_mappings@, fids@),
            final(self).fid_mappings@ == defs_names(old(self).fid_mappings@, fids@),
            final(self).discovery_complete,
            same_handshake(*final(self), *old(self)),
    {
        self.remote_registry_version = Some(version);
        self.apply_definitions(&fids);
        self.discovery_complete = true;
        proof {
            lemma_defs_agreed(old(self).agreed_fids@, fids@);
        }
    }

    /// Applies registry entries one after another.
    fn apply_definitions(&mut self, fids: &Vec<FidDefinition>)
        ensures
            final(self).agreed_fids@ == defs_agreed(old(self).agreed_fids@, fids@),
            final(self).type_mappings@ == defs_types(old(self).type_mappings@, fids@),
            final(self).fid_mappings@ == defs_names(old(self).fid_mappings@, fids@),
            final(self).remote_registry_version == old(self).remote_registry_version,
            final(self).discovery_complete == old(self).discovery_complete,
            same_handshake(*final(self), *old(self)),
    {
        let mut i: usize = 0;
        while i < fids.len()
            invariant
                i <= fids@.len(),
                self.agreed_fids@ == defs_agreed(old(self).agreed_fids@, fids@.take(i as int)),
                self.type_mappings@ == defs_types(old(self).type_mappings@, fids@.take(i as int)),
                self.fid_mappings@ == defs_names(old(self).fid_mappings@, fids@.take(i as int)),
                self.remote_registry_version == old(self).remote_registry_version,
                self.discovery_complete == old(self).discovery_complete,
                same_handshake(*self, *old(self)),
            decreases fids.len() - i,
        {
            let def = &fids[i];
            if def.status == FidDefStatus::Active {
                self.agreed_fids.insert(def.fid);
            }
            self.type_mappings.insert(def.fid, def.type_tag);
            self.fid_mappings.insert(def.fid, def.name.clone());
            proof {
                let t = fids@.take(i + 1);
                assert(t.drop_last() =~= fids@.take(i as int));
                assert(t.last() == fids@[i as int]);
            }
            i = i + 1;
        }
        assert(fids@.take(fids@.len() as int) =~= fids@);
    }

    /// A registry message carrying `fids`, the local registry version
    /// ("1.0.0" when unset) and the protocol version "0.V".
    pub fn create_registry_response(&self, fids: Vec<FidDefinition>) -> (m: NegotiationMessage)
        ensures
            m matches NegotiationMessage::RegistryResponse { version, protocol_version, fids: f } && f
                == fids && version@ == (match self.local_registry_version {
                Some(v) => v@,
                None => "1.0.0"@,
            }) && protocol_version@ == "0."@ + decimal(self.local_capabilities.version as nat),
    {
        let version = match &self.local_registry_version {
            Some(v) => v.clone(),
            None => string_of("1.0.0"),
        };
        let mut protocol_version = string_of("0.");
        push_decimal(&mut protocol_version, self.local_capabilities.version as u64);
        NegotiationMessage::RegistryResponse { version, protocol_version, fids }
    }

    /// Opens the negotiation: from the initial state, sends the local
    /// capabilities.
    pub fn initiate(&mut self) -> (r: Result<NegotiationMessage, NegotiationError>)
        ensures
            initiates(*old(self), *final(self), r),
    {
        match &self.state {
            NegotiationState::Initial => {},
            _ => {
                return Err(
                    NegotiationError::InvalidState {
                        current: copy_state(&self.state),
                        expected: NegotiationState::Initial,
                    },
                );
            },
        }
        self.state = NegotiationState::CapabilitiesSent;
        Ok(
            NegotiationMessage::Capabilities {
                version: self.local_capabilities.version,
                features: self.local_capabilities.features,
                supported_types: copy_tags(&self.local_capabilities.supported_types),
            },
        )
    }

    /// Whether the negotiation is complete.
    pub fn is_ready(&self) -> (b: bool)
        ensures
            b == (self.state == NegotiationState::Ready),
    {
        match &self.state {
            NegotiationState::Ready => true,
            _ => false,
        }
    }

    /// State of the negotiation.
    pub fn state(&self) -> (s: &NegotiationState)
        ensures
            *s == self.state,
    {
        &self.state
    }

    /// Local capabilities.
    pub fn local_capabilities(&self) -> (c: &Capabilities)
        ensures
            *c == self.local_capabilities,
    {
        &self.local_capabilities
    }

    /// Capabilities of the peer, once known.
    pub fn remote_capabilities(&self) -> (c: Option<&Capabilities>)
        ensures
            match self.remote_capabilities {
                Some(x) => c == Some(&x),
                None => c is None,
            },
    {
        match &self.remote_capabilities {
            Some(c) => Some(c),
            None => None,
        }
    }

    /// Every conflict between `local_mappings` and `remote_mappings`, once
    /// each, in no particular order.
    pub fn detect_conflicts(local_mappings: &HashMap<u16, String>, remote_mappings: &HashMap<u16, String>) -> (r: Vec<NegotiationError>)
        ensures
            forall|i: int| 0 <= i < r@.len() ==> reports_conflict(local_mappings@, remote_mappings@, #[trigger] r@[i]),
            forall|fid: u16| is_conflict(local_mappings@, remote_mappings@, fid) ==> exists|i: int| 0 <= i < r@.len() && error_fid(#[trigger] r@[i]) == fid,
            forall|i: int, j: int| 0 <= i < j < r@.len() ==> error_fid(r@[i]) != error_fid(r@[j]),
    {
        conflicts_between(local_mappings, remote_mappings)
    }

    /// Every type mismatch between `expected_types` and `actual_types`, in
    /// increasing order of identifier.
    pub fn detect_type_mismatches(expected_types: &HashMap<u16, TypeTag>, actual_types: &HashMap<u16, TypeTag>) -> (r: Vec<NegotiationError>)
        ensures
            forall|i: int| 0 <= i < r@.len() ==> reports_mismatch(expected_types@, actual_types@, #[trigger] r@[i]),
            forall|fid: u16| is_mismatch(expected_types@, actual_types@, fid) ==> exists|i: int| 0 <= i < r@.len() && error_fid(#[trigger] r@[i]) == fid,
            forall|i: int, j: int| 0 <= i < j < r@.len() ==> error_fid(r@[i]) < error_fid(r@[j]),
    {
        let fids = mismatches_between(expected_types, actual_types);
        let mut out: Vec<NegotiationError> = Vec::new();
        let mut i: usize = 0;
        while i < fids.len()
            invariant
                i <= fids@.len(),
                out@.len() == i,
                forall|j: int| 0 <= j < fids@.len() ==> is_mismatch(expected_types@, actual_types@, #[trigger] fids@[j]),
                forall|j: int| 0 <= j < i ==> reports_mismatch(expected_types@, actual_types@, #[trigger] out@[j]) && error_fid(out@[j]) == fids@[j],
            decreases fids.len() - i,
        {
            let fid = fids[i];
            assert(is_mismatch(expected_types@, actual_types@, fids@[i as int]));
            match (expected_types.get(&fid), actual_types.get(&fid)) {
                (Some(e), Some(a)) => {
                    out.push(NegotiationError::TypeMismatch { fid, expected: *e, found: *a });
                },
                _ => {},
            }
            i = i + 1;
        }
        proof {
            assert forall|fid: u16| is_mismatch(expected_types@, actual_types@, fid) implies exists|j: int| 0 <= j < out@.len() && error_fid(#[trigger] out@[j]) == fid by {
                assert(fids@.contains(fid));
                let j = choose|j: int| 0 <= j < fids@.len() && fids@[j] == fid;
                assert(error_fid(out@[j]) == fid);
            }
        }
        out
    }
}

/// A copy of a set of identifiers.
fn copy_fid_set(s: &HashSet<u16>) -> (r: HashSet<u16>)
    ensures
        r@ == s@,
{
    let mut r: HashSet<u16> = HashSet::new();
    let ghost keys = vstd::std_specs::hash::spec_hash_keys_iter(s).remaining();
    for k in it: s.iter()
        invariant
            it.seq() == keys,
            r@ == it.seq().take(it.index()).unref().to_set(),
    {
        let ghost i = it.index();
        r.insert(*k);
        proof {
            assert(it.seq().take(i + 1).unref() =~= it.seq().take(i).unref().push(*k));
            it.seq().take(i).unref().lemma_push_to_set_commute(*k);
        }
    }
    proof {
        assert(keys.take(keys.len() as int) =~= keys);
        assert(r@ =~= s@);
    }
    r
}

impl Clone for SchemaNegotiator {
    fn clone(&self) -> (c: Self)
        ensures
            same_caps(c.local_capabilities, self.local_capabilities),
            c.state == self.state,
            c.next_session_id == self.next_session_id,
            c.fid_mappings@ == self.fid_mappings@,
            c.type_mappings@ == self.type_mappings@,
            c.local_registry_version == self.local_registry_version,
            c.remote_registry_version == self.remote_registry_version,
            c.agreed_fids@ == self.agreed_fids@,
            c.discovery_complete == self.discovery_complete,
    {
        SchemaNegotiator {
            local_capabilities: self.local_capabilities.duplicate(),
            remote_capabilities: match &self.remote_capabilities {
                Some(c) => Some(c.duplicate()),
                None => None,
            },
            state: copy_state(&self.state),
            next_session_id: self.next_session_id,
            fid_mappings: self.fid_mappings.clone(),
            type_mappings: self.type_mappings.clone(),
            local_registry_version: copy_opt_string(&self.local_registry_version),
            remote_registry_version: copy_opt_string(&self.remote_registry_version),
            agreed_fids: copy_fid_set(&self.agreed_fids),
            discovery_complete: self.discovery_complete,
        }
    }
}

/// No identifier names two different fields in `local` and `remote`.
pub open spec fn no_conflict(local: Map<u16, String>, remote: Map<u16, String>) -> bool {
    forall|fid: u16| !is_conflict(local, remote, fid)
}

/// Everything but the state is the same in the two negotiators.
pub open spec fn same_but_state(a: SchemaNegotiator, b: SchemaNegotiator) -> bool {
    &&& same_registry(a, b)
    &&& a.local_capabilities == b.local_capabilities
    &&& a.remote_capabilities == b.remote_capabilities
    &&& a.next_session_id == b.next_session_id
    &&& a.local_registry_version == b.local_registry_version
}

/// What starting a negotiation does: `n` is the negotiator before, `n2`
/// after, and `r` the message to send or the error.
pub open spec fn initiates(n: SchemaNegotiator, n2: SchemaNegotiator, r: Result<NegotiationMessage, NegotiationError>) -> bool {
    &&& same_registry(n2, n)
    &&& n2.local_capabilities == n.local_capabilities
    &&& n2.remote_capabilities == n.remote_capabilities
    &&& n2.next_session_id == n.next_session_id
    &&& n2.local_registry_version == n.local_registry_version
    &&& n.state == NegotiationState::Initial ==> n2.state == NegotiationState::CapabilitiesSent && (r matches Ok(
        NegotiationMessage::Capabilities { version, features, supported_types },
    ) && version == n.local_capabilities.version && features == n.local_capabilities.features && supported_types@
        == n.local_capabilities.supported_types@)
    &&& n.state != NegotiationState::Initial ==> n2.state == n.state && r == Err::<NegotiationMessage, NegotiationError>(
        NegotiationError::InvalidState { current: n.state, expected: NegotiationState::Initial },
    )
}

/// What handling `message` does: `n` is the negotiator before, `n2` after,
/// and `r` the answer.
pub open spec fn handles(
    n: SchemaNegotiator,
    message: NegotiationMessage,
    n2: SchemaNegotiator,
    r: Result<NegotiationResponse, NegotiationError>,
) -> bool {
    match message {
        NegotiationMessage::Capabilities { version, features, supported_types } => if version
            != n.local_capabilities.version {
            n2 == n && r == Err::<NegotiationResponse, NegotiationError>(
                NegotiationError::ProtocolVersionMismatch {
                    local: n.local_capabilities.version,
                    remote: version,
                },
            )
        } else {
            &&& n2.remote_capabilities == Some(
                Capabilities { version, features, supported_types },
            )
            &&& n2.state == NegotiationState::CapabilitiesReceived
            &&& same_registry(n2, n)
            &&& n2.local_capabilities == n.local_capabilities
            &&& n2.next_session_id == n.next_session_id
            &&& n2.local_registry_version == n.local_registry_version
            &&& r == Ok::<NegotiationResponse, NegotiationError>(
                NegotiationResponse::SendMessage(
                    NegotiationMessage::CapabilitiesAck {
                        version: n.local_capabilities.version,
                        features: n.local_capabilities.features,
                    },
                ),
            )
        },
        NegotiationMessage::CapabilitiesAck { version, features } => if n.state
            != NegotiationState::CapabilitiesSent {
            n2 == n && r == Err::<NegotiationResponse, NegotiationError>(
                NegotiationError::InvalidState {
                    current: n.state,
                    expected: NegotiationState::CapabilitiesSent,
                },
            )
        } else if version != n.local_capabilities.version {
            n2 == n && r == Err::<NegotiationResponse, NegotiationError>(
                NegotiationError::ProtocolVersionMismatch {
                    local: n.local_capabilities.version,
                    remote: version,
                },
            )
        } else {
            &&& n2.remote_capabilities matches Some(c) && c.version == version
                && c.features == features && c.supported_types@
                == n.local_capabilities.supported_types@
            &&& n2.state == NegotiationState::SchemaSelected
            &&& same_registry(n2, n)
            &&& n2.local_capabilities == n.local_capabilities
            &&& n2.next_session_id == n.next_session_id
            &&& n2.local_registry_version == n.local_registry_version
            &&& r matches Ok(
                NegotiationResponse::SendMessage(
                    NegotiationMessage::SelectSchema { schema_id, fid_mappings: m },
                ),
            ) && schema_id@ == "default"@ && m@ == n.fid_mappings@
        },
        NegotiationMessage::SelectSchema { fid_mappings, .. } => if n.state
            != NegotiationState::CapabilitiesReceived {
            n2 == n && r == Err::<NegotiationResponse, NegotiationError>(
                NegotiationError::InvalidState {
                    current: n.state,
                    expected: NegotiationState::CapabilitiesReceived,
                },
            )
        } else if !no_conflict(n.fid_mappings@, fid_mappings@) {
            n2 == n && (r matches Err(e) && reports_conflict(
                n.fid_mappings@,
                fid_mappings@,
                e,
            ))
        } else {
            &&& n2.fid_mappings == fid_mappings
            &&& n2.state == NegotiationState::SchemaSelected
            &&& n2.next_session_id == n.next_session_id + 1
            &&& n2.local_capabilities == n.local_capabilities
            &&& n2.remote_capabilities == n.remote_capabilities
            &&& n2.local_registry_version == n.local_registry_version
            &&& n2.type_mappings == n.type_mappings
            &&& n2.remote_registry_version == n.remote_registry_version
            &&& n2.agreed_fids == n.agreed_fids
            &&& n2.discovery_complete == n.discovery_complete
            &&& r == Ok::<NegotiationResponse, NegotiationError>(
                NegotiationResponse::SendMessage(
                    NegotiationMessage::Ready { session_id: n.next_session_id },
                ),
            )
        },
        NegotiationMessage::Ready { session_id } => if n.state
            != NegotiationState::SchemaSelected {
            n2 == n && r == Err::<NegotiationResponse, NegotiationError>(
                NegotiationError::InvalidState {
                    current: n.state,
                    expected: NegotiationState::SchemaSelected,
                },
            )
        } else {
            &&& n2.state == NegotiationState::Ready
            &&& same_but_state(n2, n)
            &&& r matches Ok(NegotiationResponse::Complete(session)) && session.session_id
                == session_id && same_caps(session.local_caps, n.local_capabilities)
                && same_caps(session.remote_caps, n.remote_capabilities->0)
                && session.agreed_features == agreed_features(
                n.local_capabilities.features,
                n.remote_capabilities->0.features,
            ) && session.fid_mappings@ == n.fid_mappings@
        },
        NegotiationMessage::Error { message: m, .. } => {
            &&& n2.state == NegotiationState::Failed(m)
            &&& same_but_state(n2, n)
            &&& r == Ok::<NegotiationResponse, NegotiationError>(NegotiationResponse::Failed(m))
        },
        NegotiationMessage::RequestRegistry { local_version, .. } => {
            &&& n2.remote_registry_version == (match local_version {
                Some(v) => Some(v),
                None => n.remote_registry_version,
            })
            &&& same_handshake(n2, n)
            &&& n2.fid_mappings == n.fid_mappings
            &&& n2.type_mappings == n.type_mappings
            &&& n2.agreed_fids == n.agreed_fids
            &&& n2.discovery_complete == n.discovery_complete
            &&& r == Ok::<NegotiationResponse, NegotiationError>(NegotiationResponse::NoAction)
        },
        NegotiationMessage::RegistryResponse { version, fids, .. } => {
            &&& n2.remote_registry_version == Some(version)
            &&& n2.agreed_fids@ == defs_agreed(n.agreed_fids@, fids@)
            &&& n2.type_mappings@ == defs_types(n.type_mappings@, fids@)
            &&& n2.fid_mappings@ == defs_names(n.fid_mappings@, fids@)
            &&& n2.discovery_complete
            &&& same_handshake(n2, n)
            &&& r == Ok::<NegotiationResponse, NegotiationError>(NegotiationResponse::NoAction)
        },
        NegotiationMessage::RegistryDelta { target_version, added, tombstoned, .. } => {
            &&& n2.remote_registry_version == Some(target_version)
            &&& n2.agreed_fids@ == without_all(
                defs_agreed(n.agreed_fids@, added@),
                tombstoned@,
            )
            &&& n2.type_mappings@ == defs_types(n.type_mappings@, added@)
            &&& n2.fid_mappings@ == defs_names(n.fid_mappings@, added@)
            &&& n2.discovery_complete
            &&& same_handshake(n2, n)
            &&& r == Ok::<NegotiationResponse, NegotiationError>(NegotiationResponse::NoAction)
        },
    }
}

impl SchemaNegotiator {
    /// The first conflict met between the local field names and `remote`.
    fn detect_fid_conflicts(&self, remote: &HashMap<u16, String>) -> (r: Result<(), NegotiationError>)
        ensures
            r is Ok <==> no_conflict(self.fid_mappings@, remote@),
            r matches Err(e) ==> reports_conflict(self.fid_mappings@, remote@, e),
    {
        let ghost s = vstd::std_specs::hash::spec_hash_map_iter(remote).remaining();
        let ghost mut seen: int = 0;
        for (fid, remote_name) in it: remote.iter()
            invariant
                it.seq() == s,
                seen == it.index(),
                forall|k: int| 0 <= k < seen ==> !is_conflict(self.fid_mappings@, remote@, *(#[trigger] s[k]).0),
        {
            let ghost k = it.index();
            assert(it.seq()[k] == (fid, remote_name));
            assert(remote@.contains_key(*s[k].0) && remote@[*s[k].0] == *s[k].1);
            match self.fid_mappings.get(fid) {
                Some(local_name) => {
                    if *local_name != *remote_name {
                        assert(is_conflict(self.fid_mappings@, remote@, *fid));
                        return Err(
                            NegotiationError::FidConflict {
                                fid: *fid,
                                name1: local_name.clone(),
                                name2: remote_name.clone(),
                            },
                        );
                    }
                },
                None => {},
            }
            proof {
                seen = seen + 1;
            }
        }
        proof {
            assert(seen == s.len());
            assert forall|fid: u16| !is_conflict(self.fid_mappings@, remote@, fid) by {
                if is_conflict(self.fid_mappings@, remote@, fid) {
                    assert(s.contains((&fid, &remote@[fid])));
                    let k = choose|k: int| 0 <= k < s.len() && s[k] == (&fid, &remote@[fid]);
                    assert(!is_conflict(self.fid_mappings@, remote@, *s[k].0));
                }
            }
        }
        Ok(())
    }

    /// Handles a message from the peer and says what to do next.
    ///
    /// Capabilities of the same version are stored and acknowledged in any
    /// state; an acknowledgement, in the state `CapabilitiesSent`, leads to a
    /// schema selection; a schema selection, in the state
    /// `CapabilitiesReceived` and free of conflicts, is stored and answered
    /// with readiness under a new session identifier; readiness, in the state
    /// `SchemaSelected`, completes the negotiation; an error fails it.
    /// Registry messages update the registry and need no answer.
    pub fn handle_message(&mut self, message: NegotiationMessage) -> (r: Result<NegotiationResponse, NegotiationError>)
        requires
            message matches NegotiationMessage::SelectSchema { fid_mappings, .. } && old(self).state
                == NegotiationState::CapabilitiesReceived && no_conflict(old(self).fid_mappings@, fid_mappings@)
                ==> old(self).next_session_id < u64::MAX,
            message is Ready && old(self).state == NegotiationState::SchemaSelected
                ==> old(self).remote_capabilities is Some,
        ensures
            handles(*old(self), message, *final(self), r),
    {
        match message {
            NegotiationMessage::Capabilities { version, features, supported_types } => {
                if version != self.local_capabilities.version {
                    return Err(
                        NegotiationError::ProtocolVersionMismatch {
                            local: self.local_capabilities.version,
                            remote: version,
                        },
                    );
                }
                self.remote_capabilities = Some(Capabilities::new(version, features, supported_types));
                self.state = NegotiationState::CapabilitiesReceived;
                Ok(
                    NegotiationResponse::SendMessage(
                        NegotiationMessage::CapabilitiesAck {
                            version: self.local_capabilities.version,
                            features: self.local_capabilities.features,
                        },
                    ),
                )
            },
            NegotiationMessage::CapabilitiesAck { version, features } => {
                match &self.state {
                    NegotiationState::CapabilitiesSent => {},
                    _ => {
                        return Err(
                            NegotiationError::InvalidState {
                                current: copy_state(&self.state),
                                expected: NegotiationState::CapabilitiesSent,
                            },
                        );
                    },
                }
                if version != self.local_capabilities.version {
                    return Err(
                        NegotiationError::ProtocolVersionMismatch {
                            local: self.local_capabilities.version,
                            remote: version,
                        },
                    );
                }
                self.remote_capabilities = Some(
                    Capabilities::new(version, features, copy_tags(&self.local_capabilities.supported_types)),
                );
                self.state = NegotiationState::SchemaSelected;
                Ok(
                    NegotiationResponse::SendMessage(
                        NegotiationMessage::SelectSchema {
                            schema_id: string_of("default"),
                            fid_mappings: self.fid_mappings.clone(),
                        },
                    ),
                )
            },
            NegotiationMessage::SelectSchema { schema_id: _, fid_mappings } => {
                match &self.state {
                    NegotiationState::CapabilitiesReceived => {},
                    _ => {
                        return Err(
                            NegotiationError::InvalidState {
                                current: copy_state(&self.state),
                                expected: NegotiationState::CapabilitiesReceived,
                            },
                        );
                    },
                }
                match self.detect_fid_conflicts(&fid_mappings) {
                    Ok(()) => {},
                    Err(e) => {
                        return Err(e);
                    },
                }
                self.fid_mappings = fid_mappings;
                self.state = NegotiationState::SchemaSelected;
                let session_id = self.next_session_id;
                self.next_session_id = self.next_session_id + 1;
                Ok(NegotiationResponse::SendMessage(NegotiationMessage::Ready { session_id }))
            },
            NegotiationMessage::Ready { session_id } => {
                match &self.state {
                    NegotiationState::SchemaSelected => {},
                    _ => {
                        return Err(
                            NegotiationError::InvalidState {
                                current: copy_state(&self.state),
                                expected: NegotiationState::SchemaSelected,
                            },
                        );
                    },
                }
                let remote_caps = match &self.remote_capabilities {
                    Some(c) => c.duplicate(),
                    None => {
                        assert(false);
                        Capabilities::v0_5()
                    },
                };
                self.state = NegotiationState::Ready;
                let session = NegotiationSession::new(
                    session_id,
                    self.local_capabilities.duplicate(),
                    remote_caps,
                    self.fid_mappings.clone(),
                );
                Ok(NegotiationResponse::Complete(session))
            },
            NegotiationMessage::Error { code: _, message } => {
                self.state = NegotiationState::Failed(message.clone());
                Ok(NegotiationResponse::Failed(message))
            },
            NegotiationMessage::RequestRegistry { fid_range: _, include_types: _, local_version } => {
                match local_version {
                    Some(v) => {
                        self.remote_registry_version = Some(v);
                    },
                    None => {},
                }
                Ok(NegotiationResponse::NoAction)
            },
            NegotiationMessage::RegistryResponse { version, protocol_version: _, fids } => {
                self.handle_registry_response(version, fids);
                Ok(NegotiationResponse::NoAction)
            },
            NegotiationMessage::RegistryDelta {
                base_version: _,
                target_version,
                added,
                deprecated: _,
                tombstoned,
            } => {
                self.remote_registry_version = Some(target_version);
                self.apply_definitions(&added);
                let ghost grown = self.agreed_fids@;
                let ghost mid = *self;
                let mut i: usize = 0;
                while i < tombstoned.len()
                    invariant
                        i <= tombstoned@.len(),
                        self.agreed_fids@ == without_all(grown, tombstoned@.take(i as int)),
                        same_handshake(*self, mid),
                        self.remote_registry_version == mid.remote_registry_version,
                        self.fid_mappings@ == mid.fid_mappings@,
                        self.type_mappings@ == mid.type_mappings@,
                        self.discovery_complete == mid.discovery_complete,
                    decreases tombstoned.len() - i,
                {
                    self.agreed_fids.remove(&tombstoned[i]);
                    proof {
                        let t = tombstoned@.take(i + 1);
                        assert(t =~= tombstoned@.take(i as int).push(tombstoned@[i as int]));
                        tombstoned@.take(i as int).lemma_push_to_set_commute(tombstoned@[i as int]);
                        assert(self.agreed_fids@ =~= without_all(grown, t));
                    }
                    i = i + 1;
                }
                assert(tombstoned@.take(tombstoned@.len() as int) =~= tombstoned@);
                self.discovery_complete = true;
                Ok(NegotiationResponse::NoAction)
            },
        }
    }
}

/// A character as written inside a quoted debug string: quotes,
/// backslashes, and the characters NUL, tab, newline and carriage return
/// get a backslash escape; other characters are written as they are.
pub open spec fn escaped_char(c: char) -> Seq<char> {
    if c == '"' {
        seq!['\\', '"']
    } else if c == '\\' {
        seq!['\\', '\\']
    } else if c == '\n' {
        seq!['\\', 'n']
    } else if c == '\r' {
        seq!['\\', 'r']
    } else if c == '\t' {
        seq!['\\', 't']
    } else if c == '\0' {
        seq!['\\', '0']
    } else {
        seq![c]
    }
}

/// The characters of `s`, escaped one by one.
pub open spec fn escaped(s: Seq<char>) -> Seq<char>
    decreases s.len(),
{
    if s.len() == 0 {
        Seq::empty()
    } else {
        escaped(s.drop_last()) + escaped_char(s.last())
    }
}

/// A state as written in messages: its name, and for a failed state the
/// quoted, escaped reason.
pub open spec fn state_text(s: NegotiationState) -> Seq<char> {
    match s {
        NegotiationState::Initial => "Initial"@,
        NegotiationState::CapabilitiesSent => "CapabilitiesSent"@,
        NegotiationState::CapabilitiesReceived => "CapabilitiesReceived"@,
        NegotiationState::SchemaSelected => "SchemaSelected"@,
        NegotiationState::Ready => "Ready"@,
        NegotiationState::Failed(m) => "Failed(\""@ + escaped(m@) + "\")"@,
    }
}

/// The message of a negotiation error.
pub open spec fn negotiation_error_text(e: NegotiationError) -> Seq<char> {
    match e {
        NegotiationError::FidConflict { fid, name1, name2 } => "FID conflict: FID "@ + decimal(
            fid as nat,
        ) + " maps to both '"@ + name1@ + "' and '"@ + name2@ + "'"@,
        NegotiationError::TypeMismatch { fid, expected, found } => "Type mismatch for FID "@
            + decimal(fid as nat) + ": expected "@ + type_tag_name(expected) + ", found "@
            + type_tag_name(found),
        NegotiationError::UnsupportedFeature { feature } => "Unsupported feature: "@ + feature@,
        NegotiationError::ProtocolVersionMismatch { local, remote } =>
            "Protocol version mismatch: local 0x"@ + hex_digits(local as nat, 2) + ", remote 0x"@
            + hex_digits(remote as nat, 2),
        NegotiationError::InvalidState { current, expected } => "Invalid state transition: current "@
            + state_text(current) + ", expected "@ + state_text(expected),
    }
}

/// Appends a state as written in messages.
fn push_state(out: &mut String, s: &NegotiationState)
    ensures
        final(out)@ == old(out)@ + state_text(*s),
{
    match s {
        NegotiationState::Initial => push_str(out, "Initial"),
        NegotiationState::CapabilitiesSent => push_str(out, "CapabilitiesSent"),
        NegotiationState::CapabilitiesReceived => push_str(out, "CapabilitiesReceived"),
        NegotiationState::SchemaSelected => push_str(out, "SchemaSelected"),
        NegotiationState::Ready => push_str(out, "Ready"),
        NegotiationState::Failed(m) => {
            push_str(out, "Failed(\"");
            let cs = chars_of(m.as_str());
            let ghost head = out@;
            let mut i: usize = 0;
            while i < cs.len()
                invariant
                    i <= cs@.len(),
                    cs@ == m@,
                    out@ == head + escaped(cs@.take(i as int)),
                decreases cs.len() - i,
            {
                let c = cs[i];
                if c == '"' {
                    push_char(out, '\\');
                    push_char(out, '"');
                } else if c == '\\' {
                    push_char(out, '\\');
                    push_char(out, '\\');
                } else if c == '\n' {
                    push_char(out, '\\');
                    push_char(out, 'n');
                } else if c == '\r' {
                    push_char(out, '\\');
                    push_char(out, 'r');
                } else if c == '\t' {
                    push_char(out, '\\');
                    push_char(out, 't');
                } else if c == '\0' {
                    push_char(out, '\\');
                    push_char(out, '0');
                } else {
                    push_char(out, c);
                }
                proof {
                    let t = cs@.take(i + 1);
                    assert(t.drop_last() =~= cs@.take(i as int));
                    assert(t.last() == c);
                    assert(out@ =~= head + escaped(t));
                }
                i = i + 1;
            }
            assert(cs@.take(cs@.len() as int) =~= cs@);
            push_str(out, "\")");
            assert(out@ =~= old(out)@ + state_text(*s));
        },
    }
}

impl NegotiationError {
    /// The message of the error.
    pub fn message(&self) -> (s: String)
        ensures
            s@ == negotiation_error_text(*self),
    {
        let mut s = String::new();
        match self {
            NegotiationError::FidConflict { fid, name1, name2 } => {
                push_str(&mut s, "FID conflict: FID ");
                push_decimal(&mut s, *fid as u64);
                push_str(&mut s, " maps to both '");
                push_str(&mut s, name1.as_str());
                push_str(&mut s, "' and '");
                push_str(&mut s, name2.as_str());
                push_str(&mut s, "'");
            },
            NegotiationError::TypeMismatch { fid, expected, found } => {
                push_str(&mut s, "Type mismatch for FID ");
                push_decimal(&mut s, *fid as u64);
                push_str(&mut s, ": expected ");
                push_str(&mut s, expected.name());
                push_str(&mut s, ", found ");
                push_str(&mut s, found.name());
            },
            NegotiationError::UnsupportedFeature { feature } => {
                push_str(&mut s, "Unsupported feature: ");
                push_str(&mut s, feature.as_str());
            },
            NegotiationError::ProtocolVersionMismatch { local, remote } => {
                push_str(&mut s, "Protocol version mismatch: local 0x");
                push_hex(&mut s, *local as u64, 2);
                push_str(&mut s, ", remote 0x");
                push_hex(&mut s, *remote as u64, 2);
            },
            NegotiationError::InvalidState { current, expected } => {
                push_str(&mut s, "Invalid state transition: current ");
                push_state(&mut s, current);
                push_str(&mut s, ", expected ");
                push_state(&mut s, expected);
            },
        }
        proof {
            assert(s@ =~= negotiation_error_text(*self));
        }
        s
    }
}

/// A negotiation started by a client with a server of the same protocol
/// version, whose field mappings do not conflict with the client's, runs to
/// completion: the client sends its capabilities, the server acknowledges
/// with its own, the client selects its schema, the server takes the
/// client's mappings and announces readiness under its next session
/// identifier, and the client completes with the features that both
/// support and either requires.
pub proof fn lemma_negotiation_completes(
    c0: SchemaNegotiator,
    s0: SchemaNegotiator,
    c1: SchemaNegotiator,
    m1: Result<NegotiationMessage, NegotiationError>,
    s1: SchemaNegotiator,
    r1: Result<NegotiationResponse, NegotiationError>,
    c2: SchemaNegotiator,
    r2: Result<NegotiationResponse, NegotiationError>,
    s2: SchemaNegotiator,
    r3: Result<NegotiationResponse, NegotiationError>,
    c3: SchemaNegotiator,
    r4: Result<NegotiationResponse, NegotiationError>,
)
    requires
        c0.state == NegotiationState::Initial,
        c0.local_capabilities.version == s0.local_capabilities.version,
        no_conflict(s0.fid_mappings@, c0.fid_mappings@),
        initiates(c0, c1, m1),
        handles(s0, m1->Ok_0, s1, r1),
        handles(c1, r1->Ok_0->SendMessage_0, c2, r2),
        handles(s1, r2->Ok_0->SendMessage_0, s2, r3),
        handles(c2, r3->Ok_0->SendMessage_0, c3, r4),
    ensures
        (m1 is Ok),
        (r1 matches Ok(NegotiationResponse::SendMessage(m)) && (m is CapabilitiesAck)),
        (r2 matches Ok(NegotiationResponse::SendMessage(m)) && (m is SelectSchema)),
        r3 == Ok::<NegotiationResponse, NegotiationError>(
            NegotiationResponse::SendMessage(NegotiationMessage::Ready { session_id: s0.next_session_id }),
        ),
        s2.state == NegotiationState::SchemaSelected,
        s2.fid_mappings@ == c0.fid_mappings@,
        c3.state == NegotiationState::Ready,
        (r4 matches Ok(NegotiationResponse::Complete(session)) && session.session_id == s0.next_session_id
            && session.agreed_features == agreed_features(c0.local_capabilities.features, s0.local_capabilities.features)
            && session.fid_mappings@ == c0.fid_mappings@),
{
}

/// Handling a registry message: after a full registry, an identifier is
/// agreed exactly when it was before or the registry lists it as active;
/// after a registry delta, exactly when that holds of the added entries and
/// the delta does not tombstone it. Entries that are not active never make
/// an identifier agreed.
pub proof fn lemma_registry_handled(
    n: SchemaNegotiator,
    message: NegotiationMessage,
    n2: SchemaNegotiator,
    r: Result<NegotiationResponse, NegotiationError>,
)
    requires
        handles(n, message, n2, r),
    ensures
        message is RegistryResponse ==> forall|g: u16| #[trigger] n2.agreed_fids@.contains(g) <==> (n.agreed_fids@.contains(g)
            || exists|i: int| 0 <= i < message->RegistryResponse_fids@.len() && message->RegistryResponse_fids@[i].fid == g
            && message->RegistryResponse_fids@[i].status == FidDefStatus::Active),
        message is RegistryDelta ==> forall|g: u16| #[trigger] n2.agreed_fids@.contains(g) <==> ((n.agreed_fids@.contains(g)
            || exists|i: int| 0 <= i < message->RegistryDelta_added@.len() && message->RegistryDelta_added@[i].fid == g
            && message->RegistryDelta_added@[i].status == FidDefStatus::Active) && !message->RegistryDelta_tombstoned@.contains(g)),
{
    match message {
        NegotiationMessage::RegistryResponse { fids, .. } => {
            lemma_defs_agreed(n.agreed_fids@, fids@);
        },
        NegotiationMessage::RegistryDelta { added, .. } => {
            lemma_defs_agreed(n.agreed_fids@, added@);
        },
        _ => {},
    }
}

} // verus!
