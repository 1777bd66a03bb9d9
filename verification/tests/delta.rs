use lnmp_codec::binary::delta::DeltaConfig;
use lnmp_codec::binary::delta::DeltaEncoder;
use lnmp_codec::binary::delta::DeltaError;
use lnmp_codec::binary::delta::DeltaOp;
use lnmp_codec::binary::delta::DeltaOperation;
use lnmp_codec::binary::delta::DELTA_TAG;
use lnmp_codec::record::LnmpRecord;
use lnmp_codec::record::LnmpField;
use lnmp_codec::record::LnmpValue;

#[test]
fn test_delta_operation_from_u8() {
    assert_eq!(
        DeltaOperation::from_u8(0x01).unwrap(),
        DeltaOperation::SetField
    );
    assert_eq!(
        DeltaOperation::from_u8(0x02).unwrap(),
        DeltaOperation::DeleteField
    );
    assert_eq!(
        DeltaOperation::from_u8(0x03).unwrap(),
        DeltaOperation::UpdateField
    );
    assert_eq!(
        DeltaOperation::from_u8(0x04).unwrap(),
        DeltaOperation::MergeRecord
    );
}

#[test]
fn test_delta_operation_from_u8_invalid() {
    assert!(DeltaOperation::from_u8(0x00).is_err());
    assert!(DeltaOperation::from_u8(0x05).is_err());
    assert!(DeltaOperation::from_u8(0xFF).is_err());
}

#[test]
fn test_delta_operation_to_u8() {
    assert_eq!(DeltaOperation::SetField.to_u8(), 0x01);
    assert_eq!(DeltaOperation::DeleteField.to_u8(), 0x02);
    assert_eq!(DeltaOperation::UpdateField.to_u8(), 0x03);
    assert_eq!(DeltaOperation::MergeRecord.to_u8(), 0x04);
}

#[test]
fn test_delta_operation_round_trip() {
    let ops = vec![
        DeltaOperation::SetField,
        DeltaOperation::DeleteField,
        DeltaOperation::UpdateField,
        DeltaOperation::MergeRecord,
    ];

    for op in ops {
        let byte = op.to_u8();
        let parsed = DeltaOperation::from_u8(byte).unwrap();
        assert_eq!(parsed, op);
    }
}

#[test]
fn test_delta_tag_constant() {
    assert_eq!(DELTA_TAG, 0xB0);
}

#[test]
fn test_delta_op_new() {
    let op = DeltaOp::new(12, DeltaOperation::SetField, vec![0x01, 0x02, 0x03]);
    assert_eq!(op.target_fid, 12);
    assert_eq!(op.operation, DeltaOperation::SetField);
    assert_eq!(op.payload, vec![0x01, 0x02, 0x03]);
}

#[test]
fn test_delta_config_default() {
    let config = DeltaConfig::new();
    assert!(!config.enable_delta);
    assert!(!config.track_changes);
}

#[test]
fn test_delta_config_with_enable_delta() {
    let config = DeltaConfig::new().with_enable_delta(true);
    assert!(config.enable_delta);
    assert!(!config.track_changes);
}

#[test]
fn test_delta_config_with_track_changes() {
    let config = DeltaConfig::new().with_track_changes(true);
    assert!(!config.enable_delta);
    assert!(config.track_changes);
}

#[test]
fn test_delta_config_builder() {
    let config = DeltaConfig::new()
        .with_enable_delta(true)
        .with_track_changes(true);
    assert!(config.enable_delta);
    assert!(config.track_changes);
}

#[test]
fn test_compute_delta_with_enable_flag() {

    let mut base = LnmpRecord::new();
    base.add_field(LnmpField {
        fid: 1,
        value: LnmpValue::Int(1),
    });
    base.add_field(LnmpField {
        fid: 2,
        value: LnmpValue::String("a".to_string()),
    });

    let mut updated = base.clone();
    updated.remove_field(1);
    updated.add_field(LnmpField {
        fid: 1,
        value: LnmpValue::Int(2),
    });

    let config = DeltaConfig::new().with_enable_delta(true);
    let encoder = DeltaEncoder::with_config(config);
    let ops = encoder.compute_delta(&base, &updated).unwrap();
    assert_eq!(ops.len(), 1);
    assert_eq!(ops[0].target_fid, 1);
    assert_eq!(ops[0].operation, DeltaOperation::UpdateField);
}

#[test]
fn test_delta_error_display_invalid_target_fid() {
    let err = DeltaError::InvalidTargetFid { fid: 999 };
    let msg = err.message();
    assert!(msg.contains("Invalid target FID"));
    assert!(msg.contains("999"));
}

#[test]
fn test_delta_error_display_invalid_operation() {
    let err = DeltaError::InvalidOperation { op_code: 0xFF };
    let msg = err.message();
    assert!(msg.contains("Invalid operation code"));
    assert!(msg.contains("0xFF"));
}

#[test]
fn test_delta_error_display_merge_conflict() {
    let err = DeltaError::MergeConflict {
        fid: 42,
        reason: "Type mismatch".to_string(),
    };
    let msg = err.message();
    assert!(msg.contains("Merge conflict"));
    assert!(msg.contains("42"));
    assert!(msg.contains("Type mismatch"));
}

#[test]
fn test_delta_error_display_application_failed() {
    let err = DeltaError::DeltaApplicationFailed {
        reason: "Field not found".to_string(),
    };
    let msg = err.message();
    assert!(msg.contains("Delta application failed"));
    assert!(msg.contains("Field not found"));
}

