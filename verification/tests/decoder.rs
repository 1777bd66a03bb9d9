use lnmp_codec::binary::decoder::BinaryDecoder;
use lnmp_codec::binary::decoder::DecoderConfig;
use lnmp_codec::binary::encoder::BinaryEncoder;
use lnmp_codec::binary::error::BinaryError;
use lnmp_codec::record::LnmpField;
use lnmp_codec::record::LnmpRecord;
use lnmp_codec::record::LnmpValue;

#[test]
fn test_new_decoder() {
    let decoder = BinaryDecoder::new();
    assert!(!decoder.config.validate_ordering);
    assert!(!decoder.config.strict_parsing);
    // v0.5 defaults
    assert!(!decoder.config.allow_streaming);
    assert!(!decoder.config.validate_nesting);
    assert!(!decoder.config.allow_delta);
    assert_eq!(decoder.config.max_depth, 32);
}

#[test]
fn test_decoder_with_config() {
    let config = DecoderConfig::new()
        .with_validate_ordering(true)
        .with_strict_parsing(true);

    let decoder = BinaryDecoder::with_config(config);
    assert!(decoder.config.validate_ordering);
    assert!(decoder.config.strict_parsing);
}

#[test]
fn test_decode_empty_record() {
    let encoder = BinaryEncoder::new();
    let record = LnmpRecord::new();
    let binary = encoder.encode(&record).unwrap();

    let decoder = BinaryDecoder::new();
    let decoded = decoder.decode(&binary).unwrap();

    assert_eq!(decoded.fields().len(), 0);
}

#[test]
fn test_decode_single_field() {
    let mut record = LnmpRecord::new();
    record.add_field(LnmpField {
        fid: 7,
        value: LnmpValue::Bool(true),
    });

    let encoder = BinaryEncoder::new();
    let binary = encoder.encode(&record).unwrap();

    let decoder = BinaryDecoder::new();
    let decoded = decoder.decode(&binary).unwrap();

    assert_eq!(decoded.fields().len(), 1);
    assert_eq!(decoded.get_field(7).unwrap().value, LnmpValue::Bool(true));
}

#[test]
fn test_decode_multiple_fields() {
    let mut record = LnmpRecord::new();
    record.add_field(LnmpField {
        fid: 7,
        value: LnmpValue::Bool(true),
    });
    record.add_field(LnmpField {
        fid: 12,
        value: LnmpValue::Int(14532),
    });
    record.add_field(LnmpField {
        fid: 23,
        value: LnmpValue::StringArray(vec!["admin".to_string(), "dev".to_string()]),
    });

    let encoder = BinaryEncoder::new();
    let binary = encoder.encode(&record).unwrap();

    let decoder = BinaryDecoder::new();
    let decoded = decoder.decode(&binary).unwrap();

    assert_eq!(decoded.fields().len(), 3);
    assert_eq!(decoded.get_field(7).unwrap().value, LnmpValue::Bool(true));
    assert_eq!(decoded.get_field(12).unwrap().value, LnmpValue::Int(14532));
    assert_eq!(
        decoded.get_field(23).unwrap().value,
        LnmpValue::StringArray(vec!["admin".to_string(), "dev".to_string()])
    );
}

#[test]
fn test_decode_all_types() {
    let mut record = LnmpRecord::new();
    record.add_field(LnmpField {
        fid: 1,
        value: LnmpValue::Int(-42),
    });
    record.add_field(LnmpField {
        fid: 2,
        value: LnmpValue::Float((3.14159f64).to_bits()),
    });
    record.add_field(LnmpField {
        fid: 3,
        value: LnmpValue::Bool(false),
    });
    record.add_field(LnmpField {
        fid: 4,
        value: LnmpValue::String("hello".to_string()),
    });
    record.add_field(LnmpField {
        fid: 5,
        value: LnmpValue::StringArray(vec!["a".to_string(), "b".to_string()]),
    });

    let encoder = BinaryEncoder::new();
    let binary = encoder.encode(&record).unwrap();

    let decoder = BinaryDecoder::new();
    let decoded = decoder.decode(&binary).unwrap();

    assert_eq!(decoded.get_field(1).unwrap().value, LnmpValue::Int(-42));
    assert_eq!(
        decoded.get_field(2).unwrap().value,
        LnmpValue::Float((3.14159f64).to_bits())
    );
    assert_eq!(decoded.get_field(3).unwrap().value, LnmpValue::Bool(false));
    assert_eq!(
        decoded.get_field(4).unwrap().value,
        LnmpValue::String("hello".to_string())
    );
    assert_eq!(
        decoded.get_field(5).unwrap().value,
        LnmpValue::StringArray(vec!["a".to_string(), "b".to_string()])
    );
}

#[test]
fn decoder_test_decode_unsupported_version() {
    let bytes = vec![0x99, 0x00, 0x00]; // Invalid version
    let decoder = BinaryDecoder::new();
    let result = decoder.decode(&bytes);

    assert!(matches!(
        result,
        Err(BinaryError::UnsupportedVersion { found: 0x99, .. })
    ));
}

#[test]
fn test_decode_version_0x04_accepted() {
    let bytes = vec![0x04, 0x00, 0x00]; // Valid version, empty record
    let decoder = BinaryDecoder::new();
    let result = decoder.decode(&bytes);

    assert!(result.is_ok());
}

#[test]
fn test_validate_ordering_accepts_sorted() {
    let mut record = LnmpRecord::new();
    record.add_field(LnmpField {
        fid: 7,
        value: LnmpValue::Bool(true),
    });
    record.add_field(LnmpField {
        fid: 12,
        value: LnmpValue::Int(14532),
    });

    let encoder = BinaryEncoder::new();
    let binary = encoder.encode(&record).unwrap();

    let config = DecoderConfig::new().with_validate_ordering(true);
    let decoder = BinaryDecoder::with_config(config);
    let result = decoder.decode(&binary);

    assert!(result.is_ok());
}

#[test]
fn test_trailing_data_detection() {
    let mut record = LnmpRecord::new();
    record.add_field(LnmpField {
        fid: 7,
        value: LnmpValue::Bool(true),
    });

    let encoder = BinaryEncoder::new();
    let mut binary = encoder.encode(&record).unwrap();

    // Add trailing data
    binary.extend_from_slice(&[0xDE, 0xAD, 0xBE, 0xEF]);

    let config = DecoderConfig::new().with_strict_parsing(true);
    let decoder = BinaryDecoder::with_config(config);
    let result = decoder.decode(&binary);

    assert!(matches!(
        result,
        Err(BinaryError::TrailingData { bytes_remaining: 4 })
    ));
}

#[test]
fn test_trailing_data_ignored_without_strict() {
    let mut record = LnmpRecord::new();
    record.add_field(LnmpField {
        fid: 7,
        value: LnmpValue::Bool(true),
    });

    let encoder = BinaryEncoder::new();
    let mut binary = encoder.encode(&record).unwrap();

    // Add trailing data
    binary.extend_from_slice(&[0xDE, 0xAD, 0xBE, 0xEF]);

    let decoder = BinaryDecoder::new(); // strict_parsing = false
    let result = decoder.decode(&binary);

    // Should succeed without strict parsing
    assert!(result.is_ok());
}

#[test]
fn test_decode_insufficient_data() {
    let bytes = vec![0x04]; // Only version, no flags
    let decoder = BinaryDecoder::new();
    let result = decoder.decode(&bytes);

    assert!(matches!(result, Err(BinaryError::UnexpectedEof { .. })));
}

#[test]
fn test_decode_invalid_entry_count() {
    let bytes = vec![0x04, 0x00, 0x80]; // Incomplete VarInt
    let decoder = BinaryDecoder::new();
    let result = decoder.decode(&bytes);

    assert!(matches!(result, Err(BinaryError::InvalidVarInt { .. })));
}

#[test]
fn test_decode_empty_string() {
    let mut record = LnmpRecord::new();
    record.add_field(LnmpField {
        fid: 1,
        value: LnmpValue::String("".to_string()),
    });

    let encoder = BinaryEncoder::new();
    let binary = encoder.encode(&record).unwrap();

    let decoder = BinaryDecoder::new();
    let decoded = decoder.decode(&binary).unwrap();

    assert_eq!(
        decoded.get_field(1).unwrap().value,
        LnmpValue::String("".to_string())
    );
}

#[test]
fn test_decode_empty_array() {
    let mut record = LnmpRecord::new();
    record.add_field(LnmpField {
        fid: 1,
        value: LnmpValue::StringArray(vec![]),
    });

    let encoder = BinaryEncoder::new();
    let binary = encoder.encode(&record).unwrap();

    let decoder = BinaryDecoder::new();
    let decoded = decoder.decode(&binary).unwrap();

    assert_eq!(
        decoded.get_field(1).unwrap().value,
        LnmpValue::StringArray(vec![])
    );
}

#[test]
fn test_decode_special_characters() {
    let mut record = LnmpRecord::new();
    record.add_field(LnmpField {
        fid: 1,
        value: LnmpValue::String("hello\nworld".to_string()),
    });
    record.add_field(LnmpField {
        fid: 2,
        value: LnmpValue::String("path\\to\\file".to_string()),
    });
    record.add_field(LnmpField {
        fid: 3,
        value: LnmpValue::String("say \"hello\"".to_string()),
    });

    let encoder = BinaryEncoder::new();
    let binary = encoder.encode(&record).unwrap();

    let decoder = BinaryDecoder::new();
    let decoded = decoder.decode(&binary).unwrap();

    assert_eq!(
        decoded.get_field(1).unwrap().value,
        LnmpValue::String("hello\nworld".to_string())
    );
    assert_eq!(
        decoded.get_field(2).unwrap().value,
        LnmpValue::String("path\\to\\file".to_string())
    );
    assert_eq!(
        decoded.get_field(3).unwrap().value,
        LnmpValue::String("say \"hello\"".to_string())
    );
}

#[test]
fn test_decode_unicode() {
    let mut record = LnmpRecord::new();
    record.add_field(LnmpField {
        fid: 1,
        value: LnmpValue::String("emoji: 🎯".to_string()),
    });

    let encoder = BinaryEncoder::new();
    let binary = encoder.encode(&record).unwrap();

    let decoder = BinaryDecoder::new();
    let decoded = decoder.decode(&binary).unwrap();

    assert_eq!(
        decoded.get_field(1).unwrap().value,
        LnmpValue::String("emoji: 🎯".to_string())
    );
}

#[test]
fn test_default_decoder() {
    let decoder = BinaryDecoder::default();
    assert!(!decoder.config.validate_ordering);
    assert!(!decoder.config.strict_parsing);
}

#[test]
fn test_decoder_config_builder() {
    let config = DecoderConfig::new()
        .with_validate_ordering(true)
        .with_strict_parsing(true);

    assert!(config.validate_ordering);
    assert!(config.strict_parsing);
}

#[test]
fn test_decoder_config_v05_fields() {
    let config = DecoderConfig::new()
        .with_streaming(true)
        .with_validate_nesting(true)
        .with_delta(true)
        .with_max_depth(64);

    assert!(config.allow_streaming);
    assert!(config.validate_nesting);
    assert!(config.allow_delta);
    assert_eq!(config.max_depth, 64);
}

#[test]
fn test_decoder_config_v05_defaults() {
    let config = DecoderConfig::default();

    assert!(!config.allow_streaming);
    assert!(!config.validate_nesting);
    assert!(!config.allow_delta);
    assert_eq!(config.max_depth, 32);
}

#[test]
fn test_decoder_config_backward_compatibility() {
    // v0.4 configurations should work without any changes
    let v04_config = DecoderConfig::new()
        .with_validate_ordering(true)
        .with_strict_parsing(true);

    // v0.4 fields should work as before
    assert!(v04_config.validate_ordering);
    assert!(v04_config.strict_parsing);

    // v0.5 fields should have safe defaults (disabled)
    assert!(!v04_config.allow_streaming);
    assert!(!v04_config.validate_nesting);
    assert!(!v04_config.allow_delta);
}

#[test]
fn test_decoder_config_mixed_v04_v05() {
    // Test that v0.4 and v0.5 configurations can be mixed
    let config = DecoderConfig::new()
        .with_validate_ordering(true) // v0.4
        .with_streaming(true) // v0.5
        .with_strict_parsing(true) // v0.4
        .with_delta(true); // v0.5

    assert!(config.validate_ordering);
    assert!(config.strict_parsing);
    assert!(config.allow_streaming);
    assert!(config.allow_delta);
}

#[test]
fn test_decoder_v04_mode_decoding() {
    // Test that decoder with v0.5 disabled behaves like v0.4
    let config = DecoderConfig::new()
        .with_streaming(false)
        .with_validate_nesting(false)
        .with_delta(false);

    let decoder = BinaryDecoder::with_config(config);

    // Should decode a v0.4 record just like before
    let mut record = LnmpRecord::new();
    record.add_field(LnmpField {
        fid: 7,
        value: LnmpValue::Bool(true),
    });

    let encoder = BinaryEncoder::new();
    let binary = encoder.encode(&record).unwrap();

    let decoded = decoder.decode(&binary).unwrap();

    // Should decode correctly
    assert_eq!(decoded.fields().len(), 1);
    assert_eq!(decoded.get_field(7).unwrap().value, LnmpValue::Bool(true));
}

#[test]
fn test_decoder_v04_compatibility_with_existing_binary() {
    // Test that v0.5 decoder can decode v0.4 binary format
    let v05_decoder = BinaryDecoder::new(); // All v0.5 features disabled by default

    // Create a v0.4 binary (no nested structures)
    let mut record = LnmpRecord::new();
    record.add_field(LnmpField {
        fid: 7,
        value: LnmpValue::Bool(true),
    });
    record.add_field(LnmpField {
        fid: 12,
        value: LnmpValue::Int(14532),
    });

    let encoder = BinaryEncoder::new();
    let v04_binary = encoder.encode(&record).unwrap();

    // v0.5 decoder should decode v0.4 binary without issues
    let decoded = v05_decoder.decode(&v04_binary).unwrap();

    assert_eq!(decoded.fields().len(), 2);
    assert_eq!(decoded.get_field(7).unwrap().value, LnmpValue::Bool(true));
    assert_eq!(decoded.get_field(12).unwrap().value, LnmpValue::Int(14532));
}

#[test]
fn test_decode_large_fid() {
    let mut record = LnmpRecord::new();
    record.add_field(LnmpField {
        fid: 65535,
        value: LnmpValue::Int(42),
    });

    let encoder = BinaryEncoder::new();
    let binary = encoder.encode(&record).unwrap();

    let decoder = BinaryDecoder::new();
    let decoded = decoder.decode(&binary).unwrap();

    assert_eq!(decoded.get_field(65535).unwrap().value, LnmpValue::Int(42));
}

#[test]
fn test_decode_large_integer() {
    let mut record = LnmpRecord::new();
    record.add_field(LnmpField {
        fid: 1,
        value: LnmpValue::Int(i64::MAX),
    });

    let encoder = BinaryEncoder::new();
    let binary = encoder.encode(&record).unwrap();

    let decoder = BinaryDecoder::new();
    let decoded = decoder.decode(&binary).unwrap();

    assert_eq!(
        decoded.get_field(1).unwrap().value,
        LnmpValue::Int(i64::MAX)
    );
}

#[test]
fn test_decode_negative_integer() {
    let mut record = LnmpRecord::new();
    record.add_field(LnmpField {
        fid: 1,
        value: LnmpValue::Int(i64::MIN),
    });

    let encoder = BinaryEncoder::new();
    let binary = encoder.encode(&record).unwrap();

    let decoder = BinaryDecoder::new();
    let decoded = decoder.decode(&binary).unwrap();

    assert_eq!(
        decoded.get_field(1).unwrap().value,
        LnmpValue::Int(i64::MIN)
    );
}

