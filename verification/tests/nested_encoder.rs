use lnmp_codec::binary::nested_encoder::BinaryNestedEncoder;
use lnmp_codec::binary::nested_encoder::NestedEncoderConfig;
use lnmp_codec::binary::error::BinaryError;
use lnmp_codec::record::LnmpField;
use lnmp_codec::record::LnmpRecord;
use lnmp_codec::record::LnmpValue;

#[test]
fn test_nested_encoder_config_default() {
    let config = NestedEncoderConfig::default();
    assert_eq!(config.max_depth, 32);
    assert_eq!(config.max_record_size, None);
    assert!(!config.validate_canonical);
}

#[test]
fn test_nested_encoder_config_builder() {
    let config = NestedEncoderConfig::new()
        .with_max_depth(16)
        .with_max_record_size(Some(1024))
        .with_validate_canonical(true);

    assert_eq!(config.max_depth, 16);
    assert_eq!(config.max_record_size, Some(1024));
    assert!(config.validate_canonical);
}

#[test]
fn nested_encoder_test_encode_empty_nested_record() {
    let encoder = BinaryNestedEncoder::new();
    let record = LnmpRecord::new();

    let result = encoder.encode_nested_record(&record).unwrap();

    // Should have TAG (0x06) + FIELD_COUNT (0)
    assert_eq!(result[0], 0x06); // NestedRecord tag
    assert_eq!(result[1], 0x00); // Field count = 0
    assert_eq!(result.len(), 2);
}

#[test]
fn test_encode_single_level_nested_record() {
    let encoder = BinaryNestedEncoder::new();
    let mut record = LnmpRecord::new();
    record.add_field(LnmpField {
        fid: 1,
        value: LnmpValue::Int(42),
    });
    record.add_field(LnmpField {
        fid: 2,
        value: LnmpValue::String("test".to_string()),
    });

    let result = encoder.encode_nested_record(&record).unwrap();

    // Should start with TAG (0x06) + FIELD_COUNT (2)
    assert_eq!(result[0], 0x06); // NestedRecord tag
    assert_eq!(result[1], 0x02); // Field count = 2
}

#[test]
fn test_encode_nested_record_canonical_ordering() {
    let encoder = BinaryNestedEncoder::new();
    let mut record = LnmpRecord::new();
    // Add fields in non-sorted order
    record.add_field(LnmpField {
        fid: 10,
        value: LnmpValue::Int(3),
    });
    record.add_field(LnmpField {
        fid: 2,
        value: LnmpValue::Int(1),
    });
    record.add_field(LnmpField {
        fid: 5,
        value: LnmpValue::Int(2),
    });

    let result = encoder.encode_nested_record(&record).unwrap();

    // Verify TAG and count
    assert_eq!(result[0], 0x06); // NestedRecord tag
    assert_eq!(result[1], 0x03); // Field count = 3

    // Fields should be encoded in sorted order: 2, 5, 10
    // After TAG and COUNT, we should see FID=2 first
    assert_eq!(result[2], 0x02); // FID = 2 (VarInt)
}

#[test]
fn nested_encoder_test_encode_empty_nested_array() {
    let encoder = BinaryNestedEncoder::new();
    let records: Vec<LnmpRecord> = vec![];

    let result = encoder.encode_nested_array(&records).unwrap();

    // Should have TAG (0x07) + ELEMENT_COUNT (0)
    assert_eq!(result[0], 0x07); // NestedArray tag
    assert_eq!(result[1], 0x00); // Element count = 0
    assert_eq!(result.len(), 2);
}

#[test]
fn test_encode_nested_array_single_record() {
    let encoder = BinaryNestedEncoder::new();
    let mut record = LnmpRecord::new();
    record.add_field(LnmpField {
        fid: 1,
        value: LnmpValue::Int(42),
    });

    let result = encoder.encode_nested_array(&[record]).unwrap();

    // Should start with TAG (0x07) + ELEMENT_COUNT (1)
    assert_eq!(result[0], 0x07); // NestedArray tag
    assert_eq!(result[1], 0x01); // Element count = 1
    // Next should be the nested record (TAG 0x06)
    assert_eq!(result[2], 0x06); // NestedRecord tag
}

#[test]
fn test_encode_nested_array_multiple_records() {
    let encoder = BinaryNestedEncoder::new();
    let mut record1 = LnmpRecord::new();
    record1.add_field(LnmpField {
        fid: 1,
        value: LnmpValue::Int(1),
    });

    let mut record2 = LnmpRecord::new();
    record2.add_field(LnmpField {
        fid: 1,
        value: LnmpValue::Int(2),
    });

    let result = encoder.encode_nested_array(&[record1, record2]).unwrap();

    // Should start with TAG (0x07) + ELEMENT_COUNT (2)
    assert_eq!(result[0], 0x07); // NestedArray tag
    assert_eq!(result[1], 0x02); // Element count = 2
}

#[test]
fn test_encode_depth_limit_exceeded() {
    let config = NestedEncoderConfig::new().with_max_depth(2);
    let encoder = BinaryNestedEncoder::with_config(config);

    // Create a deeply nested structure (depth 3)
    let mut level3 = LnmpRecord::new();
    level3.add_field(LnmpField {
        fid: 1,
        value: LnmpValue::Int(42),
    });

    let mut level2 = LnmpRecord::new();
    level2.add_field(LnmpField {
        fid: 2,
        value: LnmpValue::NestedRecord(Box::new(level3)),
    });

    let mut level1 = LnmpRecord::new();
    level1.add_field(LnmpField {
        fid: 3,
        value: LnmpValue::NestedRecord(Box::new(level2)),
    });

    let result = encoder.encode_nested_record(&level1);

    assert!(result.is_err());
    match result {
        Err(BinaryError::NestingDepthExceeded { depth, max }) => {
            assert_eq!(max, 2);
            assert!(depth >= 2);
        }
        _ => panic!("Expected NestingDepthExceeded error"),
    }
}

#[test]
fn test_encode_size_limit_exceeded() {
    let config = NestedEncoderConfig::new().with_max_record_size(Some(10));
    let encoder = BinaryNestedEncoder::with_config(config);

    let mut record = LnmpRecord::new();
    // Add enough fields to exceed the size limit
    for i in 0..100 {
        record.add_field(LnmpField {
            fid: i,
            value: LnmpValue::String("test".to_string()),
        });
    }

    let result = encoder.encode_nested_record(&record);

    assert!(result.is_err());
    match result {
        Err(BinaryError::RecordSizeExceeded { size, max }) => {
            assert_eq!(max, 10);
            assert!(size > 10);
        }
        _ => panic!("Expected RecordSizeExceeded error"),
    }
}

#[test]
fn test_encode_multi_level_nested_record() {
    let encoder = BinaryNestedEncoder::new();

    // Create a 2-level nested structure
    let mut inner_record = LnmpRecord::new();
    inner_record.add_field(LnmpField {
        fid: 1,
        value: LnmpValue::Int(42),
    });

    let mut outer_record = LnmpRecord::new();
    outer_record.add_field(LnmpField {
        fid: 2,
        value: LnmpValue::NestedRecord(Box::new(inner_record)),
    });

    let result = encoder.encode_nested_record(&outer_record).unwrap();

    // Should start with TAG (0x06) + FIELD_COUNT (1)
    assert_eq!(result[0], 0x06); // NestedRecord tag
    assert_eq!(result[1], 0x01); // Field count = 1
    // Next should be FID=2
    assert_eq!(result[2], 0x02); // FID = 2
    // Next should be nested record TAG (0x06)
    assert_eq!(result[3], 0x06); // Inner NestedRecord tag
}

#[test]
fn test_encode_nested_record_depth_2() {
    let encoder = BinaryNestedEncoder::new();

    // Create depth-2 nested structure
    let mut level2 = LnmpRecord::new();
    level2.add_field(LnmpField {
        fid: 1,
        value: LnmpValue::Int(100),
    });

    let mut level1 = LnmpRecord::new();
    level1.add_field(LnmpField {
        fid: 2,
        value: LnmpValue::NestedRecord(Box::new(level2)),
    });

    let result = encoder.encode_nested_record(&level1).unwrap();
    assert!(result.len() > 0);
    assert_eq!(result[0], 0x06); // NestedRecord tag
}

#[test]
fn test_encode_nested_record_depth_3() {
    let encoder = BinaryNestedEncoder::new();

    // Create depth-3 nested structure
    let mut level3 = LnmpRecord::new();
    level3.add_field(LnmpField {
        fid: 1,
        value: LnmpValue::Int(100),
    });

    let mut level2 = LnmpRecord::new();
    level2.add_field(LnmpField {
        fid: 2,
        value: LnmpValue::NestedRecord(Box::new(level3)),
    });

    let mut level1 = LnmpRecord::new();
    level1.add_field(LnmpField {
        fid: 3,
        value: LnmpValue::NestedRecord(Box::new(level2)),
    });

    let result = encoder.encode_nested_record(&level1).unwrap();
    assert!(result.len() > 0);
    assert_eq!(result[0], 0x06); // NestedRecord tag
}

#[test]
fn test_encode_nested_record_depth_4() {
    let encoder = BinaryNestedEncoder::new();

    // Create depth-4 nested structure
    let mut level4 = LnmpRecord::new();
    level4.add_field(LnmpField {
        fid: 1,
        value: LnmpValue::Int(100),
    });

    let mut level3 = LnmpRecord::new();
    level3.add_field(LnmpField {
        fid: 2,
        value: LnmpValue::NestedRecord(Box::new(level4)),
    });

    let mut level2 = LnmpRecord::new();
    level2.add_field(LnmpField {
        fid: 3,
        value: LnmpValue::NestedRecord(Box::new(level3)),
    });

    let mut level1 = LnmpRecord::new();
    level1.add_field(LnmpField {
        fid: 4,
        value: LnmpValue::NestedRecord(Box::new(level2)),
    });

    let result = encoder.encode_nested_record(&level1).unwrap();
    assert!(result.len() > 0);
    assert_eq!(result[0], 0x06); // NestedRecord tag
}

#[test]
fn test_encode_nested_record_depth_5() {
    let encoder = BinaryNestedEncoder::new();

    // Create depth-5 nested structure
    let mut level5 = LnmpRecord::new();
    level5.add_field(LnmpField {
        fid: 1,
        value: LnmpValue::Int(100),
    });

    let mut level4 = LnmpRecord::new();
    level4.add_field(LnmpField {
        fid: 2,
        value: LnmpValue::NestedRecord(Box::new(level5)),
    });

    let mut level3 = LnmpRecord::new();
    level3.add_field(LnmpField {
        fid: 3,
        value: LnmpValue::NestedRecord(Box::new(level4)),
    });

    let mut level2 = LnmpRecord::new();
    level2.add_field(LnmpField {
        fid: 4,
        value: LnmpValue::NestedRecord(Box::new(level3)),
    });

    let mut level1 = LnmpRecord::new();
    level1.add_field(LnmpField {
        fid: 5,
        value: LnmpValue::NestedRecord(Box::new(level2)),
    });

    let result = encoder.encode_nested_record(&level1).unwrap();
    assert!(result.len() > 0);
    assert_eq!(result[0], 0x06); // NestedRecord tag
}

#[test]
fn test_encode_depth_limit_enforced_at_exact_limit() {
    let config = NestedEncoderConfig::new().with_max_depth(2);
    let encoder = BinaryNestedEncoder::with_config(config);

    // Create a structure at depth 1 (should succeed)
    let mut level1 = LnmpRecord::new();
    level1.add_field(LnmpField {
        fid: 1,
        value: LnmpValue::Int(42),
    });

    // This should succeed (depth 0 when encoding starts)
    let result = encoder.encode_nested_record(&level1);
    assert!(result.is_ok());

    // Create a structure at depth 2 (should succeed)
    let mut inner = LnmpRecord::new();
    inner.add_field(LnmpField {
        fid: 1,
        value: LnmpValue::Int(42),
    });

    let mut outer = LnmpRecord::new();
    outer.add_field(LnmpField {
        fid: 2,
        value: LnmpValue::NestedRecord(Box::new(inner)),
    });

    // This should succeed (depth 1 when encoding the nested record)
    let result = encoder.encode_nested_record(&outer);
    assert!(result.is_ok());

    // Create a structure at depth 3 (should fail)
    let mut level3 = LnmpRecord::new();
    level3.add_field(LnmpField {
        fid: 1,
        value: LnmpValue::Int(42),
    });

    let mut level2 = LnmpRecord::new();
    level2.add_field(LnmpField {
        fid: 2,
        value: LnmpValue::NestedRecord(Box::new(level3)),
    });

    let mut level1_deep = LnmpRecord::new();
    level1_deep.add_field(LnmpField {
        fid: 3,
        value: LnmpValue::NestedRecord(Box::new(level2)),
    });

    // This should fail (depth 2 when encoding the deepest nested record)
    let result = encoder.encode_nested_record(&level1_deep);
    assert!(result.is_err());
}

#[test]
fn test_encode_size_limit_enforced_incrementally() {
    let config = NestedEncoderConfig::new().with_max_record_size(Some(50));
    let encoder = BinaryNestedEncoder::with_config(config);

    let mut record = LnmpRecord::new();
    // Add fields until we exceed the limit
    for i in 0..20 {
        record.add_field(LnmpField {
            fid: i,
            value: LnmpValue::String("test".to_string()),
        });
    }

    let result = encoder.encode_nested_record(&record);
    assert!(result.is_err());
    match result {
        Err(BinaryError::RecordSizeExceeded { .. }) => {}
        _ => panic!("Expected RecordSizeExceeded error"),
    }
}

#[test]
fn test_encode_canonical_ordering_at_all_levels() {
    let encoder = BinaryNestedEncoder::new();

    // Create nested structure with unsorted fields at each level
    let mut inner = LnmpRecord::new();
    inner.add_field(LnmpField {
        fid: 10,
        value: LnmpValue::Int(3),
    });
    inner.add_field(LnmpField {
        fid: 2,
        value: LnmpValue::Int(1),
    });
    inner.add_field(LnmpField {
        fid: 5,
        value: LnmpValue::Int(2),
    });

    let mut outer = LnmpRecord::new();
    outer.add_field(LnmpField {
        fid: 20,
        value: LnmpValue::String("last".to_string()),
    });
    outer.add_field(LnmpField {
        fid: 1,
        value: LnmpValue::NestedRecord(Box::new(inner)),
    });
    outer.add_field(LnmpField {
        fid: 15,
        value: LnmpValue::String("middle".to_string()),
    });

    let result = encoder.encode_nested_record(&outer).unwrap();

    // Verify outer level is sorted (FID 1 should come first)
    assert_eq!(result[0], 0x06); // NestedRecord tag
    assert_eq!(result[1], 0x03); // Field count = 3
    assert_eq!(result[2], 0x01); // First FID = 1 (sorted)
}

#[test]
fn test_encode_empty_nested_records_at_multiple_levels() {
    let encoder = BinaryNestedEncoder::new();

    let inner = LnmpRecord::new(); // Empty
    let mut outer = LnmpRecord::new();
    outer.add_field(LnmpField {
        fid: 1,
        value: LnmpValue::NestedRecord(Box::new(inner)),
    });

    let result = encoder.encode_nested_record(&outer).unwrap();

    assert_eq!(result[0], 0x06); // NestedRecord tag
    assert_eq!(result[1], 0x01); // Field count = 1
    assert_eq!(result[2], 0x01); // FID = 1
    assert_eq!(result[3], 0x06); // Inner NestedRecord tag
    assert_eq!(result[4], 0x00); // Inner field count = 0
}

#[test]
fn test_encode_empty_nested_arrays() {
    let encoder = BinaryNestedEncoder::new();

    let mut record = LnmpRecord::new();
    record.add_field(LnmpField {
        fid: 1,
        value: LnmpValue::NestedArray(vec![]),
    });

    let result = encoder.encode_nested_record(&record).unwrap();

    assert_eq!(result[0], 0x06); // NestedRecord tag
    assert_eq!(result[1], 0x01); // Field count = 1
    assert_eq!(result[2], 0x01); // FID = 1
    assert_eq!(result[3], 0x07); // NestedArray tag
    assert_eq!(result[4], 0x00); // Element count = 0
}

#[test]
fn test_encode_nested_array_with_canonical_ordering() {
    let encoder = BinaryNestedEncoder::new();

    // Create records with unsorted fields
    let mut record1 = LnmpRecord::new();
    record1.add_field(LnmpField {
        fid: 10,
        value: LnmpValue::Int(2),
    });
    record1.add_field(LnmpField {
        fid: 5,
        value: LnmpValue::Int(1),
    });

    let mut record2 = LnmpRecord::new();
    record2.add_field(LnmpField {
        fid: 20,
        value: LnmpValue::Int(4),
    });
    record2.add_field(LnmpField {
        fid: 15,
        value: LnmpValue::Int(3),
    });

    let result = encoder.encode_nested_array(&[record1, record2]).unwrap();

    // Verify array structure
    assert_eq!(result[0], 0x07); // NestedArray tag
    assert_eq!(result[1], 0x02); // Element count = 2

    // First record should have sorted fields
    assert_eq!(result[2], 0x06); // First record tag
    assert_eq!(result[3], 0x02); // First record field count = 2
    assert_eq!(result[4], 0x05); // First FID = 5 (sorted)
}

#[test]
fn test_encode_mixed_primitive_and_nested_fields() {
    let encoder = BinaryNestedEncoder::new();

    let mut inner = LnmpRecord::new();
    inner.add_field(LnmpField {
        fid: 1,
        value: LnmpValue::String("inner".to_string()),
    });

    let mut outer = LnmpRecord::new();
    outer.add_field(LnmpField {
        fid: 1,
        value: LnmpValue::Int(42),
    });
    outer.add_field(LnmpField {
        fid: 2,
        value: LnmpValue::NestedRecord(Box::new(inner)),
    });
    outer.add_field(LnmpField {
        fid: 3,
        value: LnmpValue::Bool(true),
    });

    let result = encoder.encode_nested_record(&outer).unwrap();

    assert_eq!(result[0], 0x06); // NestedRecord tag
    assert_eq!(result[1], 0x03); // Field count = 3
}

#[test]
fn test_encode_all_primitive_types_in_nested_record() {
    let encoder = BinaryNestedEncoder::new();

    let mut record = LnmpRecord::new();
    record.add_field(LnmpField {
        fid: 1,
        value: LnmpValue::Int(-42),
    });
    record.add_field(LnmpField {
        fid: 2,
        value: LnmpValue::Float((3.14f64).to_bits()),
    });
    record.add_field(LnmpField {
        fid: 3,
        value: LnmpValue::Bool(false),
    });
    record.add_field(LnmpField {
        fid: 4,
        value: LnmpValue::String("test".to_string()),
    });
    record.add_field(LnmpField {
        fid: 5,
        value: LnmpValue::StringArray(vec!["a".to_string(), "b".to_string()]),
    });

    let result = encoder.encode_nested_record(&record).unwrap();

    assert_eq!(result[0], 0x06); // NestedRecord tag
    assert_eq!(result[1], 0x05); // Field count = 5
}

