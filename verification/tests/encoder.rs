use lnmp_codec::binary::encoder::BinaryEncoder;
use lnmp_codec::binary::encoder::EncoderConfig;
use lnmp_codec::binary::decoder::BinaryDecoder;
use lnmp_codec::binary::error::BinaryError;
use lnmp_codec::binary::frame::BinaryFrame;
use lnmp_codec::binary::delta::DeltaConfig;
use lnmp_codec::binary::delta::DeltaDecoder;
use lnmp_codec::binary::delta::DeltaEncoder;
use lnmp_codec::config::TextInputMode;
use lnmp_codec::record::LnmpField;
use lnmp_codec::record::LnmpRecord;
use lnmp_codec::record::LnmpValue;

#[test]
fn test_new_encoder() {
    let encoder = BinaryEncoder::new();
    assert!(encoder.config.sort_fields);
    assert!(!encoder.config.validate_canonical);
    // v0.5 defaults
    assert_eq!(encoder.config.text_input_mode, TextInputMode::Strict);
    assert!(!encoder.config.enable_nested_binary);
    assert_eq!(encoder.config.max_depth, 32);
    assert!(!encoder.config.streaming_mode);
    assert!(!encoder.config.delta_mode);
    assert_eq!(encoder.config.chunk_size, 4096);
}

#[test]
fn test_encoder_with_config() {
    let config = EncoderConfig::new()
        .with_validate_canonical(true)
        .with_sort_fields(false);

    let encoder = BinaryEncoder::with_config(config);
    assert!(!encoder.config.sort_fields);
    assert!(encoder.config.validate_canonical);
}

#[test]
fn encoder_test_encode_empty_record() {
    let record = LnmpRecord::new();
    let encoder = BinaryEncoder::new();
    let binary = encoder.encode(&record).unwrap();

    // Should have VERSION, FLAGS, and ENTRY_COUNT=0
    assert_eq!(binary.len(), 3);
    assert_eq!(binary[0], 0x04); // VERSION
    assert_eq!(binary[1], 0x00); // FLAGS
    assert_eq!(binary[2], 0x00); // ENTRY_COUNT=0
}

#[test]
fn test_encode_single_field() {
    let mut record = LnmpRecord::new();
    record.add_field(LnmpField {
        fid: 7,
        value: LnmpValue::Bool(true),
    });

    let encoder = BinaryEncoder::new();
    let binary = encoder.encode(&record).unwrap();

    // Should have VERSION, FLAGS, ENTRY_COUNT=1, and entry data
    assert!(binary.len() > 3);
    assert_eq!(binary[0], 0x04); // VERSION
    assert_eq!(binary[1], 0x00); // FLAGS
    assert_eq!(binary[2], 0x01); // ENTRY_COUNT=1
}

#[test]
fn test_encode_multiple_fields() {
    let mut record = LnmpRecord::new();
    record.add_field(LnmpField {
        fid: 7,
        value: LnmpValue::Bool(true),
    });
    record.add_field(LnmpField {
        fid: 12,
        value: LnmpValue::Int(14532),
    });
    record.add_field(LnmpField {
        fid: 23,
        value: LnmpValue::StringArray(vec!["admin".to_string(), "dev".to_string()]),
    });

    let encoder = BinaryEncoder::new();
    let binary = encoder.encode(&record).unwrap();

    assert_eq!(binary[0], 0x04); // VERSION
    assert_eq!(binary[1], 0x00); // FLAGS
    assert_eq!(binary[2], 0x03); // ENTRY_COUNT=3
}

#[test]
fn test_encode_sorts_fields() {
    let mut record = LnmpRecord::new();
    // Add fields in non-sorted order
    record.add_field(LnmpField {
        fid: 23,
        value: LnmpValue::StringArray(vec!["admin".to_string()]),
    });
    record.add_field(LnmpField {
        fid: 7,
        value: LnmpValue::Bool(true),
    });
    record.add_field(LnmpField {
        fid: 12,
        value: LnmpValue::Int(14532),
    });

    let encoder = BinaryEncoder::new();
    let binary = encoder.encode(&record).unwrap();

    // Decode to verify field order
    let frame = BinaryFrame::decode(&binary).unwrap();
    let decoded_record = frame.to_record();

    // Fields should be in sorted order: 7, 12, 23
    let fields = decoded_record.fields();
    assert_eq!(fields[0].fid, 7);
    assert_eq!(fields[1].fid, 12);
    assert_eq!(fields[2].fid, 23);
}

#[test]
fn test_encode_delta_integration() {

    let mut base = LnmpRecord::new();
    base.add_field(LnmpField {
        fid: 1,
        value: LnmpValue::Int(1),
    });
    base.add_field(LnmpField {
        fid: 2,
        value: LnmpValue::String("v1".to_string()),
    });

    let mut updated = base.clone();
    updated.remove_field(1);
    updated.add_field(LnmpField {
        fid: 1,
        value: LnmpValue::Int(2),
    });

    // BinaryEncoder delta_mode disabled should return DeltaError
    let encoder = BinaryEncoder::new();
    let err = encoder
        .encode_delta_from(&base, &updated, None)
        .unwrap_err();
    assert!(matches!(err, BinaryError::DeltaError { .. }));

    // Provide delta config to enable delta
    let config = DeltaConfig::new().with_enable_delta(true);
    let bytes = encoder
        .encode_delta_from(&base, &updated, Some(config))
        .unwrap();
    assert_eq!(bytes[0], lnmp_codec::binary::delta::DELTA_TAG);

    // Use delta decoder to decode and apply
    let delta_decoder = DeltaDecoder::with_config(DeltaConfig::new().with_enable_delta(true));
    let ops = delta_decoder.decode_delta(&bytes).unwrap();
    let mut result = base.clone();
    delta_decoder.apply_delta(&mut result, &ops).unwrap();

    // After applying delta, result should equal updated
    assert_eq!(result.fields(), updated.fields());
}

#[test]
fn test_encode_delta_from_encoder_config_enabled() {

    let mut base = LnmpRecord::new();
    base.add_field(LnmpField {
        fid: 1,
        value: LnmpValue::Int(1),
    });
    base.add_field(LnmpField {
        fid: 2,
        value: LnmpValue::String("v1".to_string()),
    });

    let mut updated = base.clone();
    updated.remove_field(1);
    updated.add_field(LnmpField {
        fid: 1,
        value: LnmpValue::Int(2),
    });

    // BinaryEncoder with delta mode enabled should succeed when using encode_delta_from and None delta_config
    let config = EncoderConfig::new().with_delta_mode(true);
    let encoder = BinaryEncoder::with_config(config);
    let bytes = encoder.encode_delta_from(&base, &updated, None).unwrap();
    assert_eq!(bytes[0], lnmp_codec::binary::delta::DELTA_TAG);
}

#[test]
fn test_encode_all_value_types() {
    let mut record = LnmpRecord::new();
    record.add_field(LnmpField {
        fid: 1,
        value: LnmpValue::Int(42),
    });
    record.add_field(LnmpField {
        fid: 2,
        value: LnmpValue::Float((2.718f64).to_bits()),
    });
    record.add_field(LnmpField {
        fid: 3,
        value: LnmpValue::Bool(false),
    });
    record.add_field(LnmpField {
        fid: 4,
        value: LnmpValue::String("world".to_string()),
    });
    record.add_field(LnmpField {
        fid: 5,
        value: LnmpValue::StringArray(vec!["x".to_string(), "y".to_string()]),
    });

    let encoder = BinaryEncoder::new();
    let binary = encoder.encode(&record).unwrap();

    // Decode and verify
    let frame = BinaryFrame::decode(&binary).unwrap();
    let decoded_record = frame.to_record();

    assert_eq!(decoded_record.fields().len(), 5);
    assert_eq!(
        decoded_record.get_field(1).unwrap().value,
        LnmpValue::Int(42)
    );
    assert_eq!(
        decoded_record.get_field(2).unwrap().value,
        LnmpValue::Float((2.718f64).to_bits())
    );
    assert_eq!(
        decoded_record.get_field(3).unwrap().value,
        LnmpValue::Bool(false)
    );
    assert_eq!(
        decoded_record.get_field(4).unwrap().value,
        LnmpValue::String("world".to_string())
    );
    assert_eq!(
        decoded_record.get_field(5).unwrap().value,
        LnmpValue::StringArray(vec!["x".to_string(), "y".to_string()])
    );
}

#[test]
fn test_default_encoder() {
    let encoder = BinaryEncoder::default();
    assert!(encoder.config.sort_fields);
    assert!(!encoder.config.validate_canonical);
}

#[test]
fn test_encoder_config_builder() {
    let config = EncoderConfig::new()
        .with_validate_canonical(true)
        .with_sort_fields(true);

    assert!(config.validate_canonical);
    assert!(config.sort_fields);
}

#[test]
fn test_encoder_config_v05_fields() {
    let config = EncoderConfig::new()
        .with_nested_binary(true)
        .with_max_depth(64)
        .with_streaming_mode(true)
        .with_delta_mode(true)
        .with_chunk_size(8192);

    assert!(config.enable_nested_binary);
    assert_eq!(config.max_depth, 64);
    assert!(config.streaming_mode);
    assert!(config.delta_mode);
    assert_eq!(config.chunk_size, 8192);
}

#[test]
fn test_encoder_config_v05_defaults() {
    let config = EncoderConfig::default();

    assert!(!config.enable_nested_binary);
    assert_eq!(config.max_depth, 32);
    assert!(!config.streaming_mode);
    assert!(!config.delta_mode);
    assert_eq!(config.chunk_size, 4096);
}

#[test]
fn test_encoder_config_backward_compatibility() {
    // v0.4 configurations should work without any changes
    let v04_config = EncoderConfig::new()
        .with_validate_canonical(true)
        .with_sort_fields(true);

    // v0.4 fields should work as before
    assert!(v04_config.validate_canonical);
    assert!(v04_config.sort_fields);

    // v0.5 fields should have safe defaults (disabled)
    assert!(!v04_config.enable_nested_binary);
    assert!(!v04_config.streaming_mode);
    assert!(!v04_config.delta_mode);
}

#[test]
fn test_encoder_config_mixed_v04_v05() {
    // Test that v0.4 and v0.5 configurations can be mixed
    let config = EncoderConfig::new()
        .with_validate_canonical(true) // v0.4
        .with_nested_binary(true) // v0.5
        .with_sort_fields(true) // v0.4
        .with_streaming_mode(true); // v0.5

    assert!(config.validate_canonical);
    assert!(config.sort_fields);
    assert!(config.enable_nested_binary);
    assert!(config.streaming_mode);
}

#[test]
fn test_encoder_rejects_streaming_mode_until_implemented() {
    let config = EncoderConfig::new().with_streaming_mode(true);
    let encoder = BinaryEncoder::with_config(config);
    let mut record = LnmpRecord::new();
    record.add_field(LnmpField {
        fid: 1,
        value: LnmpValue::Int(1),
    });
    let err = encoder.encode(&record).unwrap_err();
    assert!(matches!(err, BinaryError::UnsupportedFeature { .. }));
}

#[test]
fn test_encoder_rejects_nested_binary_flag_until_implemented() {
    let config = EncoderConfig::new().with_nested_binary(true);
    let encoder = BinaryEncoder::with_config(config);
    let mut record = LnmpRecord::new();
    record.add_field(LnmpField {
        fid: 1,
        value: LnmpValue::Int(1),
    });
    let err = encoder.encode(&record).unwrap_err();
    assert!(matches!(err, BinaryError::UnsupportedFeature { .. }));
}

#[test]
fn test_encoder_rejects_zero_chunk_size() {
    let config = EncoderConfig::new().with_chunk_size(0);
    let encoder = BinaryEncoder::with_config(config);
    let mut record = LnmpRecord::new();
    record.add_field(LnmpField {
        fid: 1,
        value: LnmpValue::Int(1),
    });
    let err = encoder.encode(&record).unwrap_err();
    assert!(matches!(err, BinaryError::UnsupportedFeature { .. }));
}

#[test]
fn test_encoder_v04_mode_encoding() {
    // Test that encoder with v0.5 disabled behaves like v0.4
    let config = EncoderConfig::new()
        .with_nested_binary(false)
        .with_streaming_mode(false)
        .with_delta_mode(false);

    let encoder = BinaryEncoder::with_config(config);

    // Should encode a simple record just like v0.4
    let mut record = LnmpRecord::new();
    record.add_field(LnmpField {
        fid: 7,
        value: LnmpValue::Bool(true),
    });

    let binary = encoder.encode(&record).unwrap();

    // Should produce v0.4 compatible output
    assert_eq!(binary[0], 0x04); // VERSION
    assert_eq!(binary[1], 0x00); // FLAGS
    assert_eq!(binary[2], 0x01); // ENTRY_COUNT=1
}

