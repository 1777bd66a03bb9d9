use lnmp_codec::canonical::canonicalize_record;
use lnmp_codec::canonical::is_empty_value;
use lnmp_codec::canonical::validate_round_trip_stability;
use lnmp_codec::record::LnmpField;
use lnmp_codec::record::LnmpRecord;
use lnmp_codec::record::LnmpValue;

#[test]
fn test_canonicalize_record_basic() {
    // Test basic field sorting
    let mut record = LnmpRecord::new();
    record.add_field(LnmpField {
        fid: 100,
        value: LnmpValue::Int(3),
    });
    record.add_field(LnmpField {
        fid: 5,
        value: LnmpValue::Int(1),
    });
    record.add_field(LnmpField {
        fid: 50,
        value: LnmpValue::Int(2),
    });

    let canonical = canonicalize_record(&record);
    let fields = canonical.fields();

    assert_eq!(fields.len(), 3);
    assert_eq!(fields[0].fid, 5);
    assert_eq!(fields[1].fid, 50);
    assert_eq!(fields[2].fid, 100);
}

#[test]
fn test_canonicalize_record_with_nested_record() {
    // Test nested record canonicalization
    let mut inner_record = LnmpRecord::new();
    inner_record.add_field(LnmpField {
        fid: 12,
        value: LnmpValue::Int(1),
    });
    inner_record.add_field(LnmpField {
        fid: 7,
        value: LnmpValue::Bool(true),
    });

    let mut outer_record = LnmpRecord::new();
    outer_record.add_field(LnmpField {
        fid: 50,
        value: LnmpValue::NestedRecord(Box::new(inner_record)),
    });
    outer_record.add_field(LnmpField {
        fid: 10,
        value: LnmpValue::String("test".to_string()),
    });

    let canonical = canonicalize_record(&outer_record);
    let fields = canonical.fields();

    // Outer fields should be sorted
    assert_eq!(fields.len(), 2);
    assert_eq!(fields[0].fid, 10);
    assert_eq!(fields[1].fid, 50);

    // Inner fields should also be sorted
    if let LnmpValue::NestedRecord(nested) = &fields[1].value {
        let nested_fields = nested.fields();
        assert_eq!(nested_fields.len(), 2);
        assert_eq!(nested_fields[0].fid, 7);
        assert_eq!(nested_fields[1].fid, 12);
    } else {
        panic!("Expected nested record");
    }
}

#[test]
fn test_canonicalize_record_with_nested_array() {
    // Test nested array canonicalization
    let mut record1 = LnmpRecord::new();
    record1.add_field(LnmpField {
        fid: 20,
        value: LnmpValue::Int(2),
    });
    record1.add_field(LnmpField {
        fid: 10,
        value: LnmpValue::Int(1),
    });

    let mut record2 = LnmpRecord::new();
    record2.add_field(LnmpField {
        fid: 30,
        value: LnmpValue::Int(4),
    });
    record2.add_field(LnmpField {
        fid: 15,
        value: LnmpValue::Int(3),
    });

    let mut outer_record = LnmpRecord::new();
    outer_record.add_field(LnmpField {
        fid: 60,
        value: LnmpValue::NestedArray(vec![record1, record2]),
    });

    let canonical = canonicalize_record(&outer_record);
    let fields = canonical.fields();

    assert_eq!(fields.len(), 1);
    assert_eq!(fields[0].fid, 60);

    // Each record in the array should have sorted fields
    if let LnmpValue::NestedArray(arr) = &fields[0].value {
        assert_eq!(arr.len(), 2);

        let arr_fields1 = arr[0].fields();
        assert_eq!(arr_fields1[0].fid, 10);
        assert_eq!(arr_fields1[1].fid, 20);

        let arr_fields2 = arr[1].fields();
        assert_eq!(arr_fields2[0].fid, 15);
        assert_eq!(arr_fields2[1].fid, 30);
    } else {
        panic!("Expected nested array");
    }
}

#[test]
fn test_canonicalize_deeply_nested_structure() {
    // Test 3-level deep nesting
    let mut level3 = LnmpRecord::new();
    level3.add_field(LnmpField {
        fid: 3,
        value: LnmpValue::Int(3),
    });
    level3.add_field(LnmpField {
        fid: 1,
        value: LnmpValue::Int(1),
    });

    let mut level2 = LnmpRecord::new();
    level2.add_field(LnmpField {
        fid: 20,
        value: LnmpValue::NestedRecord(Box::new(level3)),
    });
    level2.add_field(LnmpField {
        fid: 10,
        value: LnmpValue::Int(2),
    });

    let mut level1 = LnmpRecord::new();
    level1.add_field(LnmpField {
        fid: 100,
        value: LnmpValue::NestedRecord(Box::new(level2)),
    });
    level1.add_field(LnmpField {
        fid: 50,
        value: LnmpValue::String("test".to_string()),
    });

    let canonical = canonicalize_record(&level1);
    let fields = canonical.fields();

    // Level 1 should be sorted
    assert_eq!(fields[0].fid, 50);
    assert_eq!(fields[1].fid, 100);

    // Level 2 should be sorted
    if let LnmpValue::NestedRecord(level2_rec) = &fields[1].value {
        let level2_fields = level2_rec.fields();
        assert_eq!(level2_fields[0].fid, 10);
        assert_eq!(level2_fields[1].fid, 20);

        // Level 3 should be sorted
        if let LnmpValue::NestedRecord(level3_rec) = &level2_fields[1].value {
            let level3_fields = level3_rec.fields();
            assert_eq!(level3_fields[0].fid, 1);
            assert_eq!(level3_fields[1].fid, 3);
        } else {
            panic!("Expected level 3 nested record");
        }
    } else {
        panic!("Expected level 2 nested record");
    }
}

#[test]
fn test_canonicalize_empty_record() {
    let record = LnmpRecord::new();
    let canonical = canonicalize_record(&record);
    assert_eq!(canonical.fields().len(), 0);
}

#[test]
fn test_canonicalize_empty_nested_structures() {
    // Empty nested structures should be omitted during canonicalization (Requirement 9.3)
    let mut record = LnmpRecord::new();
    record.add_field(LnmpField {
        fid: 50,
        value: LnmpValue::NestedRecord(Box::new(LnmpRecord::new())),
    });
    record.add_field(LnmpField {
        fid: 60,
        value: LnmpValue::NestedArray(vec![]),
    });

    let canonical = canonicalize_record(&record);
    let fields = canonical.fields();

    // Empty nested structures should be omitted
    assert_eq!(fields.len(), 0);
}

#[test]
fn test_canonicalize_preserves_values() {
    // Test that canonicalization doesn't modify values
    let mut record = LnmpRecord::new();
    record.add_field(LnmpField {
        fid: 1,
        value: LnmpValue::Int(42),
    });
    record.add_field(LnmpField {
        fid: 2,
        value: LnmpValue::Float((3.14159f64).to_bits()),
    });
    record.add_field(LnmpField {
        fid: 3,
        value: LnmpValue::Bool(true),
    });
    record.add_field(LnmpField {
        fid: 4,
        value: LnmpValue::String("test value".to_string()),
    });
    record.add_field(LnmpField {
        fid: 5,
        value: LnmpValue::StringArray(vec!["a".to_string(), "b".to_string()]),
    });

    let canonical = canonicalize_record(&record);

    assert_eq!(canonical.get_field(1).unwrap().value, LnmpValue::Int(42));
    assert_eq!(
        canonical.get_field(2).unwrap().value,
        LnmpValue::Float((3.14159f64).to_bits())
    );
    assert_eq!(canonical.get_field(3).unwrap().value, LnmpValue::Bool(true));
    assert_eq!(
        canonical.get_field(4).unwrap().value,
        LnmpValue::String("test value".to_string())
    );
    assert_eq!(
        canonical.get_field(5).unwrap().value,
        LnmpValue::StringArray(vec!["a".to_string(), "b".to_string()])
    );
}

#[test]
fn test_canonicalize_idempotent() {
    // Test that canonicalizing twice produces the same result
    let mut record = LnmpRecord::new();
    record.add_field(LnmpField {
        fid: 100,
        value: LnmpValue::Int(3),
    });
    record.add_field(LnmpField {
        fid: 5,
        value: LnmpValue::Int(1),
    });
    record.add_field(LnmpField {
        fid: 50,
        value: LnmpValue::Int(2),
    });

    let canonical1 = canonicalize_record(&record);
    let canonical2 = canonicalize_record(&canonical1);

    assert_eq!(canonical1, canonical2);
}

#[test]
fn test_canonicalize_mixed_nested_structures() {
    // Test record with both nested records and nested arrays
    let mut inner_record = LnmpRecord::new();
    inner_record.add_field(LnmpField {
        fid: 15,
        value: LnmpValue::Int(5),
    });
    inner_record.add_field(LnmpField {
        fid: 5,
        value: LnmpValue::Int(3),
    });

    let mut array_record = LnmpRecord::new();
    array_record.add_field(LnmpField {
        fid: 25,
        value: LnmpValue::Int(7),
    });
    array_record.add_field(LnmpField {
        fid: 20,
        value: LnmpValue::Int(6),
    });

    let mut outer_record = LnmpRecord::new();
    outer_record.add_field(LnmpField {
        fid: 100,
        value: LnmpValue::NestedRecord(Box::new(inner_record)),
    });
    outer_record.add_field(LnmpField {
        fid: 50,
        value: LnmpValue::NestedArray(vec![array_record]),
    });
    outer_record.add_field(LnmpField {
        fid: 10,
        value: LnmpValue::String("test".to_string()),
    });

    let canonical = canonicalize_record(&outer_record);
    let fields = canonical.fields();

    // Outer fields sorted
    assert_eq!(fields[0].fid, 10);
    assert_eq!(fields[1].fid, 50);
    assert_eq!(fields[2].fid, 100);

    // Nested array fields sorted
    if let LnmpValue::NestedArray(arr) = &fields[1].value {
        let arr_fields = arr[0].fields();
        assert_eq!(arr_fields[0].fid, 20);
        assert_eq!(arr_fields[1].fid, 25);
    } else {
        panic!("Expected nested array");
    }

    // Nested record fields sorted
    if let LnmpValue::NestedRecord(nested) = &fields[2].value {
        let nested_fields = nested.fields();
        assert_eq!(nested_fields[0].fid, 5);
        assert_eq!(nested_fields[1].fid, 15);
    } else {
        panic!("Expected nested record");
    }
}

// Nested structure encoding tests
#[test]
fn test_canonicalize_field_ordering_multiple_levels() {
    // Test field ordering at multiple nesting levels (Requirement 9.1)
    let mut level3 = LnmpRecord::new();
    level3.add_field(LnmpField {
        fid: 30,
        value: LnmpValue::Int(3),
    });
    level3.add_field(LnmpField {
        fid: 10,
        value: LnmpValue::Int(1),
    });
    level3.add_field(LnmpField {
        fid: 20,
        value: LnmpValue::Int(2),
    });

    let mut level2 = LnmpRecord::new();
    level2.add_field(LnmpField {
        fid: 300,
        value: LnmpValue::NestedRecord(Box::new(level3)),
    });
    level2.add_field(LnmpField {
        fid: 100,
        value: LnmpValue::Int(10),
    });
    level2.add_field(LnmpField {
        fid: 200,
        value: LnmpValue::Int(20),
    });

    let mut level1 = LnmpRecord::new();
    level1.add_field(LnmpField {
        fid: 3000,
        value: LnmpValue::NestedRecord(Box::new(level2)),
    });
    level1.add_field(LnmpField {
        fid: 1000,
        value: LnmpValue::Int(100),
    });
    level1.add_field(LnmpField {
        fid: 2000,
        value: LnmpValue::Int(200),
    });

    let canonical = canonicalize_record(&level1);
    let fields = canonical.fields();

    // Level 1 fields should be sorted
    assert_eq!(fields[0].fid, 1000);
    assert_eq!(fields[1].fid, 2000);
    assert_eq!(fields[2].fid, 3000);

    // Level 2 fields should be sorted
    if let LnmpValue::NestedRecord(level2_rec) = &fields[2].value {
        let level2_fields = level2_rec.fields();
        assert_eq!(level2_fields[0].fid, 100);
        assert_eq!(level2_fields[1].fid, 200);
        assert_eq!(level2_fields[2].fid, 300);

        // Level 3 fields should be sorted
        if let LnmpValue::NestedRecord(level3_rec) = &level2_fields[2].value {
            let level3_fields = level3_rec.fields();
            assert_eq!(level3_fields[0].fid, 10);
            assert_eq!(level3_fields[1].fid, 20);
            assert_eq!(level3_fields[2].fid, 30);
        } else {
            panic!("Expected level 3 nested record");
        }
    } else {
        panic!("Expected level 2 nested record");
    }
}

#[test]
fn test_canonicalize_array_record_ordering() {
    // Test that records within nested arrays have sorted fields (Requirement 9.2)
    let mut rec1 = LnmpRecord::new();
    rec1.add_field(LnmpField {
        fid: 50,
        value: LnmpValue::Int(5),
    });
    rec1.add_field(LnmpField {
        fid: 10,
        value: LnmpValue::Int(1),
    });
    rec1.add_field(LnmpField {
        fid: 30,
        value: LnmpValue::Int(3),
    });

    let mut rec2 = LnmpRecord::new();
    rec2.add_field(LnmpField {
        fid: 80,
        value: LnmpValue::Int(8),
    });
    rec2.add_field(LnmpField {
        fid: 20,
        value: LnmpValue::Int(2),
    });
    rec2.add_field(LnmpField {
        fid: 60,
        value: LnmpValue::Int(6),
    });

    let mut outer = LnmpRecord::new();
    outer.add_field(LnmpField {
        fid: 100,
        value: LnmpValue::NestedArray(vec![rec1, rec2]),
    });

    let canonical = canonicalize_record(&outer);
    let fields = canonical.fields();

    assert_eq!(fields.len(), 1);
    assert_eq!(fields[0].fid, 100);

    // Each record in the array should have sorted fields
    if let LnmpValue::NestedArray(arr) = &fields[0].value {
        assert_eq!(arr.len(), 2);

        // First record fields should be sorted
        let rec1_fields = arr[0].fields();
        assert_eq!(rec1_fields[0].fid, 10);
        assert_eq!(rec1_fields[1].fid, 30);
        assert_eq!(rec1_fields[2].fid, 50);

        // Second record fields should be sorted
        let rec2_fields = arr[1].fields();
        assert_eq!(rec2_fields[0].fid, 20);
        assert_eq!(rec2_fields[1].fid, 60);
        assert_eq!(rec2_fields[2].fid, 80);
    } else {
        panic!("Expected nested array");
    }
}

#[test]
fn test_canonicalize_empty_field_omission() {
    // Test that empty fields are omitted (Requirement 9.3)
    let mut record = LnmpRecord::new();
    record.add_field(LnmpField {
        fid: 10,
        value: LnmpValue::Int(42),
    });
    record.add_field(LnmpField {
        fid: 20,
        value: LnmpValue::String("".to_string()), // Empty string
    });
    record.add_field(LnmpField {
        fid: 30,
        value: LnmpValue::StringArray(vec![]), // Empty array
    });
    record.add_field(LnmpField {
        fid: 40,
        value: LnmpValue::NestedRecord(Box::new(LnmpRecord::new())), // Empty nested record
    });
    record.add_field(LnmpField {
        fid: 50,
        value: LnmpValue::NestedArray(vec![]), // Empty nested array
    });
    record.add_field(LnmpField {
        fid: 60,
        value: LnmpValue::String("not_empty".to_string()),
    });

    let canonical = canonicalize_record(&record);
    let fields = canonical.fields();

    // Only non-empty fields should remain
    assert_eq!(fields.len(), 2);
    assert_eq!(fields[0].fid, 10);
    assert_eq!(fields[0].value, LnmpValue::Int(42));
    assert_eq!(fields[1].fid, 60);
    assert_eq!(fields[1].value, LnmpValue::String("not_empty".to_string()));
}

#[test]
fn test_canonicalize_empty_field_omission_nested() {
    // Test that empty fields are omitted in nested structures
    let mut inner = LnmpRecord::new();
    inner.add_field(LnmpField {
        fid: 1,
        value: LnmpValue::Int(42),
    });
    inner.add_field(LnmpField {
        fid: 2,
        value: LnmpValue::String("".to_string()), // Empty string
    });
    inner.add_field(LnmpField {
        fid: 3,
        value: LnmpValue::String("value".to_string()),
    });

    let mut outer = LnmpRecord::new();
    outer.add_field(LnmpField {
        fid: 100,
        value: LnmpValue::NestedRecord(Box::new(inner)),
    });
    outer.add_field(LnmpField {
        fid: 200,
        value: LnmpValue::StringArray(vec![]), // Empty array
    });

    let canonical = canonicalize_record(&outer);
    let fields = canonical.fields();

    // Only the nested record should remain (empty array omitted)
    assert_eq!(fields.len(), 1);
    assert_eq!(fields[0].fid, 100);

    // Check nested record has empty field omitted
    if let LnmpValue::NestedRecord(nested) = &fields[0].value {
        let nested_fields = nested.fields();
        assert_eq!(nested_fields.len(), 2); // Only F1 and F3, F2 omitted
        assert_eq!(nested_fields[0].fid, 1);
        assert_eq!(nested_fields[1].fid, 3);
    } else {
        panic!("Expected nested record");
    }
}

#[test]
fn test_canonicalize_round_trip_stability_simple() {
    // Test round-trip stability for simple record (Requirement 9.4)
    let mut record = LnmpRecord::new();
    record.add_field(LnmpField {
        fid: 100,
        value: LnmpValue::Int(3),
    });
    record.add_field(LnmpField {
        fid: 5,
        value: LnmpValue::Int(1),
    });
    record.add_field(LnmpField {
        fid: 50,
        value: LnmpValue::Int(2),
    });

    assert!(validate_round_trip_stability(&record));
}

#[test]
fn test_canonicalize_round_trip_stability_nested() {
    // Test round-trip stability for nested structures
    let mut inner = LnmpRecord::new();
    inner.add_field(LnmpField {
        fid: 30,
        value: LnmpValue::Int(3),
    });
    inner.add_field(LnmpField {
        fid: 10,
        value: LnmpValue::Int(1),
    });
    inner.add_field(LnmpField {
        fid: 20,
        value: LnmpValue::Int(2),
    });

    let mut outer = LnmpRecord::new();
    outer.add_field(LnmpField {
        fid: 300,
        value: LnmpValue::NestedRecord(Box::new(inner)),
    });
    outer.add_field(LnmpField {
        fid: 100,
        value: LnmpValue::Int(10),
    });
    outer.add_field(LnmpField {
        fid: 200,
        value: LnmpValue::Int(20),
    });

    assert!(validate_round_trip_stability(&outer));
}

#[test]
fn test_canonicalize_round_trip_stability_deeply_nested() {
    // Test round-trip stability with deeply nested structures (depth 5)
    let mut level5 = LnmpRecord::new();
    level5.add_field(LnmpField {
        fid: 5,
        value: LnmpValue::Int(5),
    });
    level5.add_field(LnmpField {
        fid: 1,
        value: LnmpValue::Int(1),
    });

    let mut level4 = LnmpRecord::new();
    level4.add_field(LnmpField {
        fid: 4,
        value: LnmpValue::NestedRecord(Box::new(level5)),
    });

    let mut level3 = LnmpRecord::new();
    level3.add_field(LnmpField {
        fid: 3,
        value: LnmpValue::NestedRecord(Box::new(level4)),
    });

    let mut level2 = LnmpRecord::new();
    level2.add_field(LnmpField {
        fid: 2,
        value: LnmpValue::NestedRecord(Box::new(level3)),
    });

    let mut level1 = LnmpRecord::new();
    level1.add_field(LnmpField {
        fid: 1,
        value: LnmpValue::NestedRecord(Box::new(level2)),
    });

    assert!(validate_round_trip_stability(&level1));
}

#[test]
fn test_canonicalize_round_trip_stability_with_arrays() {
    // Test round-trip stability with nested arrays
    let mut rec1 = LnmpRecord::new();
    rec1.add_field(LnmpField {
        fid: 50,
        value: LnmpValue::Int(5),
    });
    rec1.add_field(LnmpField {
        fid: 10,
        value: LnmpValue::Int(1),
    });

    let mut rec2 = LnmpRecord::new();
    rec2.add_field(LnmpField {
        fid: 80,
        value: LnmpValue::Int(8),
    });
    rec2.add_field(LnmpField {
        fid: 20,
        value: LnmpValue::Int(2),
    });

    let mut outer = LnmpRecord::new();
    outer.add_field(LnmpField {
        fid: 100,
        value: LnmpValue::NestedArray(vec![rec1, rec2]),
    });
    outer.add_field(LnmpField {
        fid: 50,
        value: LnmpValue::String("test".to_string()),
    });

    assert!(validate_round_trip_stability(&outer));
}

#[test]
fn test_canonicalize_round_trip_stability_with_empty_fields() {
    // Test round-trip stability with empty fields that should be omitted
    let mut record = LnmpRecord::new();
    record.add_field(LnmpField {
        fid: 10,
        value: LnmpValue::Int(42),
    });
    record.add_field(LnmpField {
        fid: 20,
        value: LnmpValue::String("".to_string()), // Empty string
    });
    record.add_field(LnmpField {
        fid: 30,
        value: LnmpValue::StringArray(vec![]), // Empty array
    });

    assert!(validate_round_trip_stability(&record));
}

#[test]
fn test_canonicalize_round_trip_stability_mixed_structures() {
    // Test round-trip stability with mixed nested structures
    let mut inner_record = LnmpRecord::new();
    inner_record.add_field(LnmpField {
        fid: 15,
        value: LnmpValue::Int(5),
    });
    inner_record.add_field(LnmpField {
        fid: 5,
        value: LnmpValue::Int(3),
    });

    let mut array_record = LnmpRecord::new();
    array_record.add_field(LnmpField {
        fid: 25,
        value: LnmpValue::Int(7),
    });
    array_record.add_field(LnmpField {
        fid: 20,
        value: LnmpValue::Int(6),
    });

    let mut outer = LnmpRecord::new();
    outer.add_field(LnmpField {
        fid: 100,
        value: LnmpValue::NestedRecord(Box::new(inner_record)),
    });
    outer.add_field(LnmpField {
        fid: 50,
        value: LnmpValue::NestedArray(vec![array_record]),
    });
    outer.add_field(LnmpField {
        fid: 10,
        value: LnmpValue::String("test".to_string()),
    });

    assert!(validate_round_trip_stability(&outer));
}

#[test]
fn test_is_empty_value() {
    // Test the is_empty_value helper function
    assert!(is_empty_value(&LnmpValue::String("".to_string())));
    assert!(!is_empty_value(&LnmpValue::String("not_empty".to_string())));

    assert!(is_empty_value(&LnmpValue::StringArray(vec![])));
    assert!(!is_empty_value(&LnmpValue::StringArray(vec![
        "item".to_string()
    ])));

    assert!(is_empty_value(&LnmpValue::NestedRecord(Box::new(
        LnmpRecord::new()
    ))));
    let mut non_empty_record = LnmpRecord::new();
    non_empty_record.add_field(LnmpField {
        fid: 1,
        value: LnmpValue::Int(42),
    });
    assert!(!is_empty_value(&LnmpValue::NestedRecord(Box::new(
        non_empty_record
    ))));

    assert!(is_empty_value(&LnmpValue::NestedArray(vec![])));
    let mut rec = LnmpRecord::new();
    rec.add_field(LnmpField {
        fid: 1,
        value: LnmpValue::Int(42),
    });
    assert!(!is_empty_value(&LnmpValue::NestedArray(vec![rec])));

    // Primitive values are never empty
    assert!(!is_empty_value(&LnmpValue::Int(0)));
    assert!(!is_empty_value(&LnmpValue::Int(42)));
    assert!(!is_empty_value(&LnmpValue::Float((0.0f64).to_bits())));
    assert!(!is_empty_value(&LnmpValue::Float((3.14f64).to_bits())));
    assert!(!is_empty_value(&LnmpValue::Bool(true)));
    assert!(!is_empty_value(&LnmpValue::Bool(false)));
}

