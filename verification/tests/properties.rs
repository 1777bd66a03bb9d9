use lnmp_codec::binary::decoder::{BinaryDecoder, DecoderConfig};
use lnmp_codec::binary::delta::{
    DeltaApplyContext, DeltaConfig, DeltaDecoder, DeltaEncoder, DeltaError, DeltaOp, DeltaOperation, DELTA_TAG,
};
use lnmp_codec::binary::encoder::BinaryEncoder;
use lnmp_codec::binary::error::BinaryError;
use lnmp_codec::binary::nested_decoder::{BinaryNestedDecoder, NestedDecoderConfig};
use lnmp_codec::binary::nested_encoder::BinaryNestedEncoder;
use lnmp_codec::binary::negotiation::FeatureFlags;
use lnmp_codec::binary::streaming::{
    BackpressureController, StreamingDecoder, StreamingEncoder, StreamingEvent, StreamingState,
};
use lnmp_codec::binary::varint::{decode, encode};
use lnmp_codec::container::{
    delta_apply_context_from_metadata, parse_delta_metadata, parse_stream_metadata, DeltaMetadata, MetadataError,
    StreamMetadata,
};
use lnmp_codec::equivalence::EquivalenceMapper;
use lnmp_codec::record::{LnmpField, LnmpRecord, LnmpValue};
use lnmp_codec::text::{escape_string, has_unsafe_char, is_safe_unquoted_char};

fn field(fid: u16, value: LnmpValue) -> LnmpField {
    LnmpField { fid, value }
}

fn record(fields: Vec<LnmpField>) -> LnmpRecord {
    let mut r = LnmpRecord::new();
    for f in fields {
        r.add_field(f);
    }
    r
}

/// For every identifier, both records lack it or their first fields with it
/// hold agreeing values (nested records compared the same way).
fn agree(a: &LnmpRecord, b: &LnmpRecord) -> bool {
    for fid in 0..=u16::MAX {
        match (a.get_field(fid), b.get_field(fid)) {
            (None, None) => {}
            (Some(x), Some(y)) => match (&x.value, &y.value) {
                (LnmpValue::NestedRecord(p), LnmpValue::NestedRecord(q)) => {
                    if !agree(p, q) {
                        return false;
                    }
                }
                (p, q) => {
                    if p != q {
                        return false;
                    }
                }
            },
            _ => return false,
        }
    }
    true
}

#[test]
fn varint_roundtrip_over_many_values() {
    let mut v: i64 = 1;
    let mut values = vec![0i64, i64::MIN, i64::MAX, -1, 63, 64, -64, -65];
    while v < i64::MAX / 3 {
        values.push(v);
        values.push(-v);
        v *= 3;
    }
    for x in values {
        let mut bytes = encode(x);
        let n = bytes.len();
        bytes.extend_from_slice(&[0xAA, 0x01]);
        assert_eq!(decode(&bytes).unwrap(), (x, n));
    }
}

#[test]
fn binary_roundtrip_sorts_fields() {
    let rec = record(vec![
        field(23, LnmpValue::StringArray(vec!["a".to_string(), "b".to_string()])),
        field(7, LnmpValue::Bool(true)),
        field(12, LnmpValue::Int(-14532)),
        field(3, LnmpValue::Float(2.5f64.to_bits())),
        field(9, LnmpValue::String("héllo".to_string())),
    ]);
    let bytes = BinaryEncoder::new().encode(&rec).unwrap();
    let back = BinaryDecoder::new().decode(&bytes).unwrap();
    let fids: Vec<u16> = back.fields().iter().map(|f| f.fid).collect();
    assert_eq!(fids, vec![3, 7, 9, 12, 23]);
    for f in rec.fields() {
        assert_eq!(back.get_field(f.fid).unwrap().value, f.value);
    }
}

#[test]
fn nested_record_roundtrip_is_canonical() {
    let inner = record(vec![field(5, LnmpValue::Int(1)), field(2, LnmpValue::String("x".to_string()))]);
    let outer = record(vec![
        field(9, LnmpValue::NestedRecord(Box::new(inner))),
        field(1, LnmpValue::Bool(false)),
    ]);
    let bytes = BinaryNestedEncoder::new().encode_nested_record(&outer).unwrap();
    let (back, used) = BinaryNestedDecoder::new().decode_nested_record(&bytes).unwrap();
    assert_eq!(used, bytes.len());
    assert_eq!(back.fields()[0].fid, 1);
    match &back.fields()[1].value {
        LnmpValue::NestedRecord(r) => {
            let fids: Vec<u16> = r.fields().iter().map(|f| f.fid).collect();
            assert_eq!(fids, vec![2, 5]);
        }
        other => panic!("unexpected {:?}", other),
    }
}

#[test]
fn stream_roundtrip_gives_back_the_chunks() {
    let mut enc = StreamingEncoder::new();
    let mut frames = vec![enc.begin_stream().unwrap()];
    frames.push(enc.write_chunk(&[1, 2, 3]).unwrap());
    frames.push(enc.write_chunk(&[]).unwrap());
    frames.push(enc.write_chunk(&[4, 5]).unwrap());
    frames.push(enc.end_stream().unwrap());
    let mut dec = StreamingDecoder::new();
    let mut last = None;
    for f in &frames {
        last = Some(dec.feed_frame(f).unwrap());
    }
    assert_eq!(last, Some(StreamingEvent::StreamComplete { total_bytes: 5 }));
    assert_eq!(dec.get_complete_payload().unwrap(), &[1, 2, 3, 4, 5]);
}

#[test]
fn error_frame_message_is_decoded_text() {
    let mut enc = StreamingEncoder::new();
    let bytes = enc.error_frame("boom: ünïcode").unwrap();
    let mut dec = StreamingDecoder::new();
    let ev = dec.feed_frame(&bytes).unwrap();
    assert_eq!(ev, StreamingEvent::StreamError { message: "boom: ünïcode".to_string() });
    assert_eq!(dec.state, StreamingState::Error("boom: ünïcode".to_string()));
}

#[test]
fn delta_packet_roundtrip() {
    let ops = vec![
        DeltaOp::new(3, DeltaOperation::SetField, vec![0x01, 0x05]),
        DeltaOp::new(300, DeltaOperation::DeleteField, vec![]),
        DeltaOp::new(9, DeltaOperation::UpdateField, vec![0x03, 0x01]),
        DeltaOp::new(65535, DeltaOperation::MergeRecord, vec![0x00]),
    ];
    let config = DeltaConfig::new().with_enable_delta(true);
    let bytes = DeltaEncoder::with_config(config).encode_delta(&ops).unwrap();
    assert_eq!(bytes[0], DELTA_TAG);
    let back = DeltaDecoder::with_config(config).decode_delta(&bytes).unwrap();
    assert_eq!(back, ops);
}

#[test]
fn applying_the_delta_between_records_gives_the_new_one() {
    let old_inner = record(vec![field(1, LnmpValue::Int(1)), field(2, LnmpValue::String("a".to_string()))]);
    let new_inner = record(vec![
        field(2, LnmpValue::String("b".to_string())),
        field(3, LnmpValue::Bool(true)),
    ]);
    let old = record(vec![
        field(10, LnmpValue::Int(5)),
        field(11, LnmpValue::String("keep".to_string())),
        field(12, LnmpValue::NestedRecord(Box::new(old_inner))),
        field(13, LnmpValue::Float((-0.0f64).to_bits())),
        field(14, LnmpValue::Bool(true)),
    ]);
    let new = record(vec![
        field(15, LnmpValue::StringArray(vec!["x".to_string()])),
        field(12, LnmpValue::NestedRecord(Box::new(new_inner))),
        field(11, LnmpValue::String("keep".to_string())),
        field(10, LnmpValue::Int(6)),
        field(13, LnmpValue::Float(0.0f64.to_bits())),
    ]);
    let config = DeltaConfig::new().with_enable_delta(true);
    let ops = DeltaEncoder::with_config(config).compute_delta(&old, &new).unwrap();
    let kinds: Vec<(u16, DeltaOperation)> = ops.iter().map(|o| (o.target_fid, o.operation)).collect();
    assert_eq!(
        kinds,
        vec![
            (10, DeltaOperation::UpdateField),
            (12, DeltaOperation::MergeRecord),
            (14, DeltaOperation::DeleteField),
            (15, DeltaOperation::SetField),
        ]
    );
    let bytes = DeltaEncoder::with_config(config).encode_delta(&ops).unwrap();
    let decoder = DeltaDecoder::with_config(config);
    let read = decoder.decode_delta(&bytes).unwrap();
    let mut result = old.clone();
    decoder.apply_delta(&mut result, &read).unwrap();
    // -0.0 and 0.0 are equal as numbers, so field 13 is left as it was.
    assert_eq!(result.get_field(13).unwrap().value, LnmpValue::Float((-0.0f64).to_bits()));
    let mut expected = new.clone();
    expected.remove_field(13);
    expected.add_field(field(13, LnmpValue::Float((-0.0f64).to_bits())));
    assert!(agree(&result, &expected));
}

#[test]
fn delta_errors() {
    let config = DeltaConfig::new().with_enable_delta(true);
    let decoder = DeltaDecoder::with_config(config);
    let mut base = record(vec![field(1, LnmpValue::Int(1))]);
    let err = decoder
        .apply_delta(&mut base, &[DeltaOp::new(2, DeltaOperation::UpdateField, vec![0x01, 0x02])])
        .unwrap_err();
    assert_eq!(err, DeltaError::InvalidTargetFid { fid: 2 });
    let err = decoder
        .apply_delta(&mut base, &[DeltaOp::new(1, DeltaOperation::MergeRecord, vec![0x00])])
        .unwrap_err();
    assert!(matches!(err, DeltaError::MergeConflict { fid: 1, .. }));
    let err = decoder.decode_delta(&[DELTA_TAG, 0x01, 0x05, 0x09, 0x00]).unwrap_err();
    assert_eq!(err, DeltaError::InvalidOperation { op_code: 0x09 });
    assert_eq!(err.message(), "Invalid operation code: 0x09");
    let err = DeltaDecoder::new().decode_delta(&[DELTA_TAG, 0x00]).unwrap_err();
    assert!(matches!(err, DeltaError::DeltaApplicationFailed { .. }));
    let err = decoder.decode_delta(&[0x00]).unwrap_err();
    assert_eq!(
        err,
        DeltaError::DeltaApplicationFailed { reason: "Invalid delta tag: expected 0xB0, found 0x00".to_string() }
    );
    let err = decoder.decode_delta(&[DELTA_TAG, 0x80]).unwrap_err();
    assert!(matches!(err, DeltaError::BinaryError { source: BinaryError::InvalidVarInt { .. } }));
}

#[test]
fn container_metadata() {
    assert_eq!(
        parse_stream_metadata(&[0, 0, 1, 0, 1, 0, 0xFF]).unwrap(),
        StreamMetadata { chunk_size: 256, checksum_type: 1, flags: 0 }
    );
    let err = parse_stream_metadata(&[1, 2, 3]).unwrap_err();
    assert_eq!(err, MetadataError::Truncated { expected: 6, actual: 3 });
    assert_eq!(err.message(), "metadata too short: expected at least 6 bytes, found 3");
    let meta = parse_delta_metadata(&[0x01, 0x02, 0, 0, 0, 0, 0, 0x03, 0x01, 0x01]).unwrap();
    assert_eq!(meta.base_snapshot, 0x0102_0000_0000_0003);
    let err = parse_delta_metadata(&[0; 9]).unwrap_err();
    assert_eq!(err.message(), "metadata too short: expected at least 10 bytes, found 9");
    let ctx = delta_apply_context_from_metadata(&DeltaMetadata { base_snapshot: 7, algorithm: 1, compression: 0 });
    assert_eq!(
        ctx,
        DeltaApplyContext { metadata_base: Some(7), required_base: None, algorithm: Some(1), compression: Some(0) }
    );
}

#[test]
fn equivalence_mapper_tables() {
    let mut m = EquivalenceMapper::new();
    m.add_mappings(4, vec![]);
    assert_eq!(m.field_count(), 1);
    assert_eq!(m.mapping_count(4), 0);
    m.add_mapping(4, "a".to_string(), "1".to_string());
    m.add_mapping(4, "a".to_string(), "2".to_string());
    assert_eq!(m.mapping_count(4), 1);
    assert_eq!(m.map(4, "a"), Some("2".to_string()));
    m.apply_default_bool_mappings(5);
    assert_eq!(m.mapping_count(5), 12);
    let copy = m.clone();
    m.clear_field(4);
    assert_eq!(m.field_count(), 1);
    assert!(!m.has_mapping(4, "a"));
    assert!(copy.has_mapping(4, "a"));
    m.clear();
    assert_eq!(m.field_count(), 0);
}

#[test]
fn backpressure_send_then_ack_restores_the_window() {
    let mut c = BackpressureController::with_window_size(100);
    c.on_chunk_sent(60);
    assert_eq!(c.available_window(), 40);
    c.on_chunk_sent(60);
    assert_eq!(c.available_window(), 0);
    assert!(!c.can_send());
    c.on_chunk_acked(60);
    c.on_chunk_acked(60);
    assert_eq!(c.bytes_in_flight(), 0);
    assert_eq!(c.available_window(), 100);
}

#[test]
fn agreed_features_are_symmetric() {
    let a = FeatureFlags::v0_5_full();
    let b = FeatureFlags::v0_4_compatible();
    assert_eq!(a.intersect(&b), b.intersect(&a));
    assert_eq!(a.intersect(&a), a);
}

#[test]
fn text_escaping_and_safe_characters() {
    assert_eq!(escape_string("say \"hi\"\n\tpath\\x\r"), "say \\\"hi\\\"\\n\\tpath\\\\x\\r");
    assert_eq!(escape_string("plain é"), "plain é");
    assert!(!has_unsafe_char("user_id-1.2"));
    assert!(has_unsafe_char("a b"));
    assert!(has_unsafe_char("é"));
    assert!(is_safe_unquoted_char('Z') && !is_safe_unquoted_char('/'));
}

#[test]
fn test_escape_string() {
    assert_eq!(escape_string("simple"), "simple");
    assert_eq!(escape_string("hello \"world\""), r#"hello \"world\""#);
    assert_eq!(escape_string("back\\slash"), r#"back\\slash"#);
    assert_eq!(escape_string("line1\nline2"), r#"line1\nline2"#);
    assert_eq!(escape_string("tab\there"), r#"tab\there"#);
    assert_eq!(escape_string("return\rhere"), r#"return\rhere"#);
}

#[test]
fn test_decode_nested_structure_not_allowed() {
    let inner = LnmpRecord::new();
    let outer = record(vec![field(1, LnmpValue::NestedRecord(Box::new(inner)))]);
    let bytes = BinaryNestedEncoder::new().encode_nested_record(&outer).unwrap();
    let config = NestedDecoderConfig::new().with_allow_nested(false);
    let decoder = BinaryNestedDecoder::with_config(config);
    let result = decoder.decode_nested_record(&bytes);
    assert!(matches!(result, Err(BinaryError::NestedStructureNotSupported)));
}

#[test]
fn test_decode_nested_array_not_allowed() {
    let outer = record(vec![field(1, LnmpValue::NestedArray(vec![]))]);
    let bytes = BinaryNestedEncoder::new().encode_nested_record(&outer).unwrap();
    let config = NestedDecoderConfig::new().with_allow_nested(false);
    let decoder = BinaryNestedDecoder::with_config(config);
    let result = decoder.decode_nested_record(&bytes);
    assert!(matches!(result, Err(BinaryError::NestedStructureNotSupported)));
}

#[test]
fn supports_nested_reports_v05_tags() {
    let d = BinaryDecoder::new();
    assert!(!d.supports_nested(&[0x04, 0x00, 0x01, 0x07, 0x00, 0x03, 0x01]));
    assert!(d.supports_nested(&[0x04, 0x00, 0x01, 0x07, 0x00, 0x06, 0x00]));
    assert!(d.supports_nested(&[0x04, 0x00, 0x02, 0x07, 0x00, 0x03, 0x01, 0x08, 0x00, 0x0F]));
    assert!(!d.supports_nested(&[0x04, 0x00]));
    assert!(!d.supports_nested(&[0x04, 0x00, 0x01, 0x07, 0x00, 0x10]));
    assert!(!d.supports_nested(&[0x04, 0x00, 0x00, 0x07, 0x00, 0x06]));
}

#[test]
fn decoder_refuses_duplicate_fids() {
    let bytes = [0x04, 0x00, 0x02, 0x07, 0x00, 0x03, 0x01, 0x07, 0x00, 0x03, 0x00];
    let strict = BinaryDecoder::with_config(
        DecoderConfig::new().with_validate_ordering(true).with_strict_parsing(true),
    );
    let err = strict.decode(&bytes).unwrap_err();
    assert_eq!(err, BinaryError::CanonicalViolation { reason: "Duplicate FID: F7".to_string() });
    assert!(BinaryDecoder::new().decode(&bytes).is_err());
    let unsorted = [0x04, 0x00, 0x02, 0x09, 0x00, 0x03, 0x01, 0x07, 0x00, 0x03, 0x00];
    let err = strict.decode(&unsorted).unwrap_err();
    assert_eq!(
        err,
        BinaryError::CanonicalViolation { reason: "Fields not in ascending FID order: F7 appears after F9".to_string() }
    );
    assert_eq!(BinaryDecoder::new().decode(&unsorted).unwrap().fields().len(), 2);
}

#[test]
fn applying_computed_delta_gives_new_sorted_fields() {
    let old = record(vec![
        field(9, LnmpValue::Float(1.5f64.to_bits())),
        field(2, LnmpValue::Int(1)),
        field(5, LnmpValue::String("gone".to_string())),
        field(7, LnmpValue::Bool(false)),
    ]);
    let new = record(vec![
        field(7, LnmpValue::Bool(true)),
        field(1, LnmpValue::StringArray(vec!["a".to_string(), "b".to_string()])),
        field(9, LnmpValue::Float(1.5f64.to_bits())),
        field(2, LnmpValue::Int(-4)),
    ]);
    let config = DeltaConfig::new().with_enable_delta(true);
    let ops = DeltaEncoder::with_config(config).compute_delta(&old, &new).unwrap();
    let mut base = old.clone();
    assert!(DeltaDecoder::with_config(config).apply_delta(&mut base, &ops).is_ok());
    assert_eq!(base.sorted_fields(), new.sorted_fields());
}
