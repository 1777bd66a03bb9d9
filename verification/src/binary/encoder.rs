//! Binary encoder: records to the v0.4 binary frame, fields ordered by FID.

use vstd::prelude::*;
use super::entry::value_fits;
use super::error::{BinaryError, BinaryErrorModel};
use super::frame::{BinaryFrame, frame_wire, fields_entries, entries_fields, entries_model, VERSION_0_4, EntryModel, lemma_frame_roundtrip, parse_frame};
use super::types::{model_tag, is_flat};
use crate::config::TextInputMode;
use crate::numfmt::string_of;
use super::delta::{DeltaConfig, DeltaEncoder, delta_wire, diff_fields, diff_ok, ops_model};
use crate::record::{LnmpRecord, FieldModel, ValueModel, fields_model, lemma_fields_model, is_stable_sort, with_fid};

verus! {

/// Configuration of the binary encoder.
#[derive(Debug, Clone)]
pub struct EncoderConfig {
    /// Whether to validate canonical form before encoding.
    pub validate_canonical: bool,
    /// Whether to sort fields by FID.
    pub sort_fields: bool,
    /// How text input is preprocessed before parsing.
    pub text_input_mode: TextInputMode,
    /// Whether nested binary structures are enabled (v0.5).
    pub enable_nested_binary: bool,
    /// Maximum nesting depth (v0.5).
    pub max_depth: usize,
    /// Whether streaming mode is enabled (v0.5).
    pub streaming_mode: bool,
    /// Whether delta mode is enabled (v0.5).
    pub delta_mode: bool,
    /// Chunk size for streaming mode, in bytes (v0.5).
    pub chunk_size: usize,
}

impl EncoderConfig {
    /// Default configuration: no validation, sorted fields, strict text input,
    /// v0.5 features off, depth 32, chunks of 4096 bytes.
    pub fn new() -> (c: EncoderConfig)
        ensures
            !c.validate_canonical,
            c.sort_fields,
            c.text_input_mode == TextInputMode::Strict,
            !c.enable_nested_binary,
            c.max_depth == 32,
            !c.streaming_mode,
            !c.delta_mode,
            c.chunk_size == 4096,
    {
        EncoderConfig {
            validate_canonical: false,
            sort_fields: true,
            text_input_mode: TextInputMode::Strict,
            enable_nested_binary: false,
            max_depth: 32,
            streaming_mode: false,
            delta_mode: false,
            chunk_size: 4096,
        }
    }

    /// Sets canonical validation; turning it on or off also turns sorting on.
    pub fn with_validate_canonical(self, validate: bool) -> (c: EncoderConfig)
        ensures
            c == (EncoderConfig { validate_canonical: validate, sort_fields: true, ..self }),
    {
        EncoderConfig { validate_canonical: validate, sort_fields: true, ..self }
    }

    /// Sets whether fields are sorted by FID.
    pub fn with_sort_fields(self, sort: bool) -> (c: EncoderConfig)
        ensures
            c == (EncoderConfig { sort_fields: sort, ..self }),
    {
        EncoderConfig { sort_fields: sort, ..self }
    }

    /// Sets how text input is preprocessed.
    pub fn with_text_input_mode(self, mode: TextInputMode) -> (c: EncoderConfig)
        ensures
            c == (EncoderConfig { text_input_mode: mode, ..self }),
    {
        EncoderConfig { text_input_mode: mode, ..self }
    }

    /// Enables or disables nested binary encoding.
    pub fn with_nested_binary(self, enable: bool) -> (c: EncoderConfig)
        ensures
            c == (EncoderConfig { enable_nested_binary: enable, ..self }),
    {
        EncoderConfig { enable_nested_binary: enable, ..self }
    }

    /// Sets the maximum nesting depth.
    pub fn with_max_depth(self, depth: usize) -> (c: EncoderConfig)
        ensures
            c == (EncoderConfig { max_depth: depth, ..self }),
    {
        EncoderConfig { max_depth: depth, ..self }
    }

    /// Enables or disables streaming mode.
    pub fn with_streaming_mode(self, enable: bool) -> (c: EncoderConfig)
        ensures
            c == (EncoderConfig { streaming_mode: enable, ..self }),
    {
        EncoderConfig { streaming_mode: enable, ..self }
    }

    /// Enables or disables delta mode.
    pub fn with_delta_mode(self, enable: bool) -> (c: EncoderConfig)
        ensures
            c == (EncoderConfig { delta_mode: enable, ..self }),
    {
        EncoderConfig { delta_mode: enable, ..self }
    }

    /// Sets the streaming chunk size.
    pub fn with_chunk_size(self, size: usize) -> (c: EncoderConfig)
        ensures
            c == (EncoderConfig { chunk_size: size, ..self }),
    {
        EncoderConfig { chunk_size: size, ..self }
    }

    /// Turns off every v0.5 feature (nesting, streaming, delta).
    pub fn with_v0_4_compatibility(self) -> (c: EncoderConfig)
        ensures
            c == (EncoderConfig {
                enable_nested_binary: false,
                streaming_mode: false,
                delta_mode: false,
                ..self
            }),
    {
        EncoderConfig {
            enable_nested_binary: false,
            streaming_mode: false,
            delta_mode: false,
            ..self
        }
    }
}

impl Default for EncoderConfig {
    fn default() -> (c: EncoderConfig)
        ensures
            c == EncoderConfig::spec_default(),
    {
        EncoderConfig::new()
    }
}

impl EncoderConfig {
    /// The default configuration.
    pub open spec fn spec_default() -> EncoderConfig {
        EncoderConfig {
            validate_canonical: false,
            sort_fields: true,
            text_input_mode: TextInputMode::Strict,
            enable_nested_binary: false,
            max_depth: 32,
            streaming_mode: false,
            delta_mode: false,
            chunk_size: 4096,
        }
    }
}

/// Wire form of a record whose fields are already in the wanted order.
pub open spec fn record_wire(t: Seq<FieldModel>) -> Seq<u8> {
    frame_wire(VERSION_0_4, 0, fields_entries(t))
}

/// Every value of the fields is encodable in v0.4 and the field count fits a varint.
pub open spec fn record_encodable(t: Seq<FieldModel>) -> bool {
    &&& t.len() <= i64::MAX
    &&& forall|i: int| 0 <= i < t.len() ==> is_flat(#[trigger] t[i].value) && value_fits(t[i].value)
}

/// Every string length and array count of the record's values fits a varint.
pub open spec fn record_fits(t: Seq<FieldModel>) -> bool {
    &&& t.len() <= i64::MAX
    &&& forall|i: int| 0 <= i < t.len() ==> value_fits(#[trigger] t[i].value)
}

/// The first field, in record order, whose value is nested.
pub open spec fn first_nested(t: Seq<FieldModel>) -> Option<FieldModel>
    decreases t.len(),
{
    if t.len() == 0 {
        None
    } else if !is_flat(t[0].value) {
        Some(t[0])
    } else {
        first_nested(t.drop_first())
    }
}

/// Error reported for a nested field in the v0.4 format.
pub open spec fn nested_field_error(f: FieldModel) -> BinaryErrorModel {
    if f.value is Record {
        BinaryErrorModel::InvalidValue {
            field_id: f.fid,
            type_tag: 0x04,
            reason: "Nested records not supported in v0.4 binary format. Use v0.5 with enable_nested_binary=true or convert to flat structure."@,
        }
    } else {
        BinaryErrorModel::InvalidValue {
            field_id: f.fid,
            type_tag: 0x07,
            reason: "Nested arrays not supported in v0.4 binary format. Use v0.5 with enable_nested_binary=true or convert to flat structure."@,
        }
    }
}

/// What encoding a record gives under a configuration: an error, or the wire form
/// of the record's stable sort by FID (`Ok(())`).
pub open spec fn encode_outcome(c: EncoderConfig, t: Seq<FieldModel>) -> Result<(), BinaryErrorModel> {
    if c.streaming_mode {
        Err(BinaryErrorModel::UnsupportedFeature { feature: "binary streaming mode"@ })
    } else if c.enable_nested_binary {
        Err(BinaryErrorModel::UnsupportedFeature { feature: "nested binary encoding"@ })
    } else if c.chunk_size == 0 {
        Err(BinaryErrorModel::UnsupportedFeature { feature: "chunk_size=0 is invalid"@ })
    } else {
        match first_nested(t) {
            Some(f) => Err(nested_field_error(f)),
            None => Ok(()),
        }
    }
}

/// Binary encoder for records.
#[derive(Debug)]
pub struct BinaryEncoder {
    /// The configuration.
    pub config: EncoderConfig,
}

proof fn lemma_no_nested(t: Seq<FieldModel>)
    requires
        first_nested(t) is None,
    ensures
        forall|i: int| 0 <= i < t.len() ==> is_flat(#[trigger] t[i].value),
    decreases t.len(),
{
    if t.len() > 0 {
        lemma_no_nested(t.drop_first());
        assert forall|i: int| 0 <= i < t.len() implies is_flat(#[trigger] t[i].value) by {
            if i > 0 {
                assert(t[i] == t.drop_first()[i - 1]);
            }
        }
    }
}

/// A stable sort holds the same fields, so whatever holds of every field of the
/// record holds of every field of the sort.
proof fn lemma_stable_sort_members(s: Seq<FieldModel>, t: Seq<FieldModel>, i: int)
    requires
        is_stable_sort(s, t),
        0 <= i < t.len(),
    ensures
        s.contains(t[i]),
{
    let fid = t[i].fid;
    let p = |f: FieldModel| f.fid == fid;
    assert(with_fid(t, fid) == with_fid(s, fid));
    t.lemma_filter_contains(p, i);
    s.lemma_filter_contains_rev(p, t[i]);
}

/// A stable sort of an encodable record, of the same length, is encodable.
pub proof fn lemma_sorted_encodable(r: Seq<FieldModel>, t: Seq<FieldModel>)
    requires
        record_fits(r),
        first_nested(r) is None,
        is_stable_sort(r, t),
        t.len() == r.len(),
    ensures
        record_encodable(t),
{
    lemma_no_nested(r);
    assert forall|i: int| 0 <= i < t.len() implies is_flat(#[trigger] t[i].value) && value_fits(
        t[i].value,
    ) by {
        lemma_stable_sort_members(r, t, i);
        let j = choose|j: int| 0 <= j < r.len() && r[j] == t[i];
        assert(is_flat(r[j].value) && value_fits(r[j].value));
    }
}

impl BinaryEncoder {
    /// Encoder with the default configuration.
    pub fn new() -> (e: BinaryEncoder)
        ensures
            e.config == EncoderConfig::spec_default(),
    {
        BinaryEncoder { config: EncoderConfig::new() }
    }

    /// Encoder with the given configuration.
    pub fn with_config(config: EncoderConfig) -> (e: BinaryEncoder)
        ensures
            e.config == config,
    {
        BinaryEncoder { config }
    }

    /// Sets delta mode.
    pub fn with_delta_mode(self, enable: bool) -> (e: BinaryEncoder)
        ensures
            e.config == (EncoderConfig { delta_mode: enable, ..self.config }),
    {
        BinaryEncoder { config: EncoderConfig { delta_mode: enable, ..self.config } }
    }

    /// Encodes a record as a v0.4 frame, its fields ordered by FID (stably).
    ///
    /// Fails for configurations that ask for features the encoder does not
    /// provide, and for records holding nested values.
    pub fn encode(&self, record: &LnmpRecord) -> (r: Result<Vec<u8>, BinaryError>)
        requires
            record_fits(record@),
        ensures
            match encode_outcome(self.config, record@) {
                Err(e) => r matches Err(x) && x@ == e,
                Ok(()) => r matches Ok(bytes) && exists|t: Seq<FieldModel>|
                    is_stable_sort(record@, t) && t.len() == record@.len() && bytes@ == record_wire(t),
            },
    {
        if self.config.streaming_mode {
            return Err(BinaryError::UnsupportedFeature { feature: string_of("binary streaming mode") });
        }
        if self.config.enable_nested_binary {
            return Err(
                BinaryError::UnsupportedFeature { feature: string_of("nested binary encoding") },
            );
        }
        if self.config.chunk_size == 0 {
            return Err(
                BinaryError::UnsupportedFeature { feature: string_of("chunk_size=0 is invalid") },
            );
        }
        match validate_v0_4_compatibility(record) {
            Ok(()) => {},
            Err(e) => {
                return Err(e);
            },
        }
        let frame = match BinaryFrame::from_record(record) {
            Ok(f) => f,
            Err(e) => {
                return Err(e);
            },
        };
        let ghost t = entries_fields(entries_model(frame.entries@));
        proof {
            lemma_sorted_encodable(record@, t);
            let m = entries_model(frame.entries@);
            assert forall|i: int| 0 <= i < m.len() implies is_flat(#[trigger] m[i].value)
                && value_fits(m[i].value) by {
                assert(t[i].value == m[i].value);
            }
            assert(fields_entries(t) =~= m);
        }
        let bytes = frame.encode();
        proof {
            assert(is_stable_sort(record@, t) && t.len() == record@.len() && bytes@ == record_wire(t));
        }
        Ok(bytes)
    }
}

/// Refuses records that hold nested values, which v0.4 cannot carry.
fn validate_v0_4_compatibility(record: &LnmpRecord) -> (r: Result<(), BinaryError>)
    ensures
        match first_nested(record@) {
            Some(f) => r matches Err(x) && x@ == nested_field_error(f),
            None => r is Ok,
        },
{
    let fields = record.fields();
    proof {
        lemma_fields_model(fields@);
    }
    assert(record@.subrange(0, record@.len() as int) =~= record@);
    let mut i: usize = 0;
    while i < fields.len()
        invariant
            i <= fields@.len(),
            fields_model(fields@) == record@,
            record@.len() == fields@.len(),
            forall|j: int| 0 <= j < fields@.len() ==> record@[j] == (#[trigger] fields@[j])@,
            first_nested(record@) == first_nested(record@.subrange(i as int, record@.len() as int)),
        decreases fields@.len() - i,
    {
        proof {
            let m = record@.subrange(i as int, record@.len() as int);
            assert(m.drop_first() =~= record@.subrange(i + 1, record@.len() as int));
            assert(m[0] == fields@[i as int]@);
        }
        match &fields[i].value {
            crate::record::LnmpValue::NestedRecord(_) => {
                return Err(
                    BinaryError::InvalidValue {
                        field_id: fields[i].fid,
                        type_tag: 0x04,
                        reason: string_of(
                            "Nested records not supported in v0.4 binary format. Use v0.5 with enable_nested_binary=true or convert to flat structure.",
                        ),
                    },
                );
            },
            crate::record::LnmpValue::NestedArray(_) => {
                return Err(
                    BinaryError::InvalidValue {
                        field_id: fields[i].fid,
                        type_tag: 0x07,
                        reason: string_of(
                            "Nested arrays not supported in v0.4 binary format. Use v0.5 with enable_nested_binary=true or convert to flat structure.",
                        ),
                    },
                );
            },
            _ => {},
        }
        i += 1;
    }
    Ok(())
}

impl BinaryEncoder {
    /// The delta packet that turns `base` into `updated`. Delta encoding is
    /// on when the encoder's delta mode or the given delta configuration
    /// (the default one when absent) enables it; otherwise the request is
    /// refused.
    pub fn encode_delta_from(
        &self,
        base: &LnmpRecord,
        updated: &LnmpRecord,
        delta_config: Option<DeltaConfig>,
    ) -> (r: Result<Vec<u8>, BinaryError>)
        requires
            diff_ok(base@, updated@),
        ensures
            ({
                let enabled = self.config.delta_mode || (delta_config matches Some(c) && c.enable_delta);
                &&& enabled ==> (r matches Ok(b) && b@ == delta_wire(diff_fields(base@, updated@)))
                &&& !enabled ==> (r matches Err(e) && e@ == BinaryErrorModel::DeltaError {
                    reason: "Delta mode not enabled in encoder or provided delta config"@,
                })
            }),
    {
        let mut config = match delta_config {
            Some(c) => c,
            None => DeltaConfig::new(),
        };
        if self.config.delta_mode {
            config.enable_delta = true;
        }
        if !self.config.delta_mode && !config.enable_delta {
            return Err(
                BinaryError::DeltaError {
                    reason: string_of("Delta mode not enabled in encoder or provided delta config"),
                },
            );
        }
        let delta_encoder = DeltaEncoder::with_config(config);
        let ops = match delta_encoder.compute_delta(base, updated) {
            Ok(ops) => ops,
            Err(_) => {
                assert(false);
                return Err(BinaryError::DeltaError { reason: string_of("compute_delta failed") });
            },
        };
        match delta_encoder.encode_delta(ops.as_slice()) {
            Ok(bytes) => Ok(bytes),
            Err(_) => {
                assert(false);
                Err(BinaryError::DeltaError { reason: string_of("encode_delta failed") })
            },
        }
    }
}

impl Default for BinaryEncoder {
    fn default() -> (e: BinaryEncoder)
        ensures
            e.config == EncoderConfig::spec_default(),
    {
        BinaryEncoder::new()
    }
}

/// Reading the wire form of an encodable record, followed by any bytes, gives back
/// exactly its fields, in order, and the length of the wire form.
pub proof fn lemma_record_roundtrip(t: Seq<FieldModel>, rest: Seq<u8>)
    requires
        record_encodable(t),
    ensures
        parse_frame(record_wire(t) + rest) == Ok::<
            (u8, u8, Seq<EntryModel>, nat),
            BinaryErrorModel,
        >((VERSION_0_4, 0u8, fields_entries(t), record_wire(t).len())),
        entries_fields(fields_entries(t)) == t,
{
    let s = fields_entries(t);
    assert forall|i: int| 0 <= i < s.len() implies is_flat(#[trigger] s[i].value) && value_fits(
        s[i].value,
    ) && s[i].tag == model_tag(s[i].value) by {
        assert(s[i].value == t[i].value);
    }
    lemma_frame_roundtrip(0, s, rest);
    assert(entries_fields(s) =~= t);
}

} // verus!
