use std::collections::HashMap;
use lnmp_codec::binary::negotiation::Capabilities;
use lnmp_codec::binary::negotiation::ErrorCode;
use lnmp_codec::binary::negotiation::FeatureFlags;
use lnmp_codec::binary::negotiation::FidDefStatus;
use lnmp_codec::binary::negotiation::FidDefinition;
use lnmp_codec::binary::negotiation::NegotiationError;
use lnmp_codec::binary::negotiation::NegotiationMessage;
use lnmp_codec::binary::negotiation::NegotiationResponse;
use lnmp_codec::binary::negotiation::NegotiationSession;
use lnmp_codec::binary::negotiation::NegotiationState;
use lnmp_codec::binary::negotiation::SchemaNegotiator;
use lnmp_codec::binary::types::TypeTag;

#[test]
fn test_feature_flags_new() {
    let flags = FeatureFlags::new();
    assert!(!flags.supports_nested);
    assert!(!flags.supports_streaming);
    assert!(!flags.supports_delta);
    assert!(!flags.supports_llb);
    assert!(!flags.requires_checksums);
    assert!(!flags.requires_canonical);
}

#[test]
fn test_feature_flags_v0_5_full() {
    let flags = FeatureFlags::v0_5_full();
    assert!(flags.supports_nested);
    assert!(flags.supports_streaming);
    assert!(flags.supports_delta);
    assert!(flags.supports_llb);
    assert!(flags.requires_checksums);
    assert!(flags.requires_canonical);
}

#[test]
fn test_feature_flags_v0_4_compatible() {
    let flags = FeatureFlags::v0_4_compatible();
    assert!(!flags.supports_nested);
    assert!(!flags.supports_streaming);
    assert!(!flags.supports_delta);
    assert!(!flags.supports_llb);
    assert!(!flags.requires_checksums);
    assert!(flags.requires_canonical);
}

#[test]
fn test_feature_flags_intersect() {
    let flags1 = FeatureFlags {
        supports_nested: true,
        supports_streaming: true,
        supports_delta: false,
        supports_llb: true,
        requires_checksums: false,
        requires_canonical: true,
    };

    let flags2 = FeatureFlags {
        supports_nested: true,
        supports_streaming: false,
        supports_delta: true,
        supports_llb: true,
        requires_checksums: true,
        requires_canonical: false,
    };

    let intersection = flags1.intersect(&flags2);
    assert!(intersection.supports_nested);
    assert!(!intersection.supports_streaming);
    assert!(!intersection.supports_delta);
    assert!(intersection.supports_llb);
    assert!(intersection.requires_checksums); // OR logic
    assert!(intersection.requires_canonical); // OR logic
}

#[test]
fn test_feature_flags_intersect_all_enabled() {
    let flags1 = FeatureFlags::v0_5_full();
    let flags2 = FeatureFlags::v0_5_full();

    let intersection = flags1.intersect(&flags2);
    assert!(intersection.supports_nested);
    assert!(intersection.supports_streaming);
    assert!(intersection.supports_delta);
    assert!(intersection.supports_llb);
    assert!(intersection.requires_checksums);
    assert!(intersection.requires_canonical);
}

#[test]
fn test_feature_flags_intersect_all_disabled() {
    let flags1 = FeatureFlags::new();
    let flags2 = FeatureFlags::new();

    let intersection = flags1.intersect(&flags2);
    assert!(!intersection.supports_nested);
    assert!(!intersection.supports_streaming);
    assert!(!intersection.supports_delta);
    assert!(!intersection.supports_llb);
    assert!(!intersection.requires_checksums);
    assert!(!intersection.requires_canonical);
}

#[test]
fn test_feature_flags_intersect_v0_5_with_v0_4() {
    let v0_5 = FeatureFlags::v0_5_full();
    let v0_4 = FeatureFlags::v0_4_compatible();

    let intersection = v0_5.intersect(&v0_4);
    // Only features supported by both
    assert!(!intersection.supports_nested);
    assert!(!intersection.supports_streaming);
    assert!(!intersection.supports_delta);
    assert!(!intersection.supports_llb);
    // Requirements use OR logic
    assert!(intersection.requires_checksums); // v0.5 requires it
    assert!(intersection.requires_canonical); // Both require it
}

#[test]
fn test_negotiation_session_agreed_features() {
    let local_caps = Capabilities {
        version: 0x05,
        features: FeatureFlags {
            supports_nested: true,
            supports_streaming: true,
            supports_delta: false,
            supports_llb: true,
            requires_checksums: false,
            requires_canonical: true,
        },
        supported_types: vec![TypeTag::Int],
    };

    let remote_caps = Capabilities {
        version: 0x05,
        features: FeatureFlags {
            supports_nested: true,
            supports_streaming: false,
            supports_delta: true,
            supports_llb: true,
            requires_checksums: true,
            requires_canonical: false,
        },
        supported_types: vec![TypeTag::Int],
    };

    let session = NegotiationSession::new(1, local_caps, remote_caps, HashMap::new());

    // Verify agreed features are the intersection
    assert!(session.agreed_features.supports_nested);
    assert!(!session.agreed_features.supports_streaming);
    assert!(!session.agreed_features.supports_delta);
    assert!(session.agreed_features.supports_llb);
    assert!(session.agreed_features.requires_checksums);
    assert!(session.agreed_features.requires_canonical);
}

#[test]
fn test_capabilities_new() {
    let features = FeatureFlags::new();
    let types = vec![TypeTag::Int, TypeTag::String];
    let caps = Capabilities::new(0x05, features.clone(), types.clone());

    assert_eq!(caps.version, 0x05);
    assert_eq!(caps.features, features);
    assert_eq!(caps.supported_types, types);
}

#[test]
fn test_capabilities_v0_5() {
    let caps = Capabilities::v0_5();
    assert_eq!(caps.version, 0x05);
    assert!(caps.features.supports_nested);
    assert!(caps.supports_type(TypeTag::NestedRecord));
    assert!(caps.supports_type(TypeTag::NestedArray));
}

#[test]
fn test_capabilities_v0_4() {
    let caps = Capabilities::v0_4();
    assert_eq!(caps.version, 0x04);
    assert!(!caps.features.supports_nested);
    assert!(!caps.supports_type(TypeTag::NestedRecord));
    assert!(!caps.supports_type(TypeTag::NestedArray));
    assert!(caps.supports_type(TypeTag::Int));
    assert!(caps.supports_type(TypeTag::String));
}

#[test]
fn test_capabilities_supports_type() {
    let caps = Capabilities::v0_5();
    assert!(caps.supports_type(TypeTag::Int));
    assert!(caps.supports_type(TypeTag::Float));
    assert!(caps.supports_type(TypeTag::Bool));
    assert!(caps.supports_type(TypeTag::String));
    assert!(caps.supports_type(TypeTag::StringArray));
    assert!(caps.supports_type(TypeTag::NestedRecord));
    assert!(caps.supports_type(TypeTag::NestedArray));
    assert!(!caps.supports_type(TypeTag::HybridNumericArray));
}

#[test]
fn test_negotiation_message_capabilities() {
    let msg = NegotiationMessage::Capabilities {
        version: 0x05,
        features: FeatureFlags::v0_5_full(),
        supported_types: vec![TypeTag::Int, TypeTag::String],
    };

    match msg {
        NegotiationMessage::Capabilities { version, .. } => {
            assert_eq!(version, 0x05);
        }
        _ => panic!("Expected Capabilities variant"),
    }
}

#[test]
fn test_negotiation_message_capabilities_ack() {
    let msg = NegotiationMessage::CapabilitiesAck {
        version: 0x05,
        features: FeatureFlags::new(),
    };

    match msg {
        NegotiationMessage::CapabilitiesAck { version, .. } => {
            assert_eq!(version, 0x05);
        }
        _ => panic!("Expected CapabilitiesAck variant"),
    }
}

#[test]
fn test_negotiation_message_select_schema() {
    let mut mappings = HashMap::new();
    mappings.insert(1, "user_id".to_string());
    mappings.insert(2, "username".to_string());

    let msg = NegotiationMessage::SelectSchema {
        schema_id: "user_schema_v1".to_string(),
        fid_mappings: mappings.clone(),
    };

    match msg {
        NegotiationMessage::SelectSchema {
            schema_id,
            fid_mappings,
        } => {
            assert_eq!(schema_id, "user_schema_v1");
            assert_eq!(fid_mappings.len(), 2);
            assert_eq!(fid_mappings.get(&1), Some(&"user_id".to_string()));
        }
        _ => panic!("Expected SelectSchema variant"),
    }
}

#[test]
fn test_negotiation_message_ready() {
    let msg = NegotiationMessage::Ready { session_id: 12345 };

    match msg {
        NegotiationMessage::Ready { session_id } => {
            assert_eq!(session_id, 12345);
        }
        _ => panic!("Expected Ready variant"),
    }
}

#[test]
fn test_negotiation_message_error() {
    let msg = NegotiationMessage::Error {
        code: ErrorCode::FidConflict,
        message: "FID 7 conflict".to_string(),
    };

    match msg {
        NegotiationMessage::Error { code, message } => {
            assert_eq!(code, ErrorCode::FidConflict);
            assert_eq!(message, "FID 7 conflict");
        }
        _ => panic!("Expected Error variant"),
    }
}

#[test]
fn test_error_code_from_u8() {
    assert_eq!(ErrorCode::from_u8(0x01), Some(ErrorCode::FidConflict));
    assert_eq!(ErrorCode::from_u8(0x02), Some(ErrorCode::TypeMismatch));
    assert_eq!(
        ErrorCode::from_u8(0x03),
        Some(ErrorCode::UnsupportedFeature)
    );
    assert_eq!(
        ErrorCode::from_u8(0x04),
        Some(ErrorCode::ProtocolVersionMismatch)
    );
    assert_eq!(ErrorCode::from_u8(0x05), Some(ErrorCode::InvalidState));
    assert_eq!(ErrorCode::from_u8(0xFF), Some(ErrorCode::Generic));
    assert_eq!(ErrorCode::from_u8(0x99), None);
}

#[test]
fn test_error_code_to_u8() {
    assert_eq!(ErrorCode::FidConflict.to_u8(), 0x01);
    assert_eq!(ErrorCode::TypeMismatch.to_u8(), 0x02);
    assert_eq!(ErrorCode::UnsupportedFeature.to_u8(), 0x03);
    assert_eq!(ErrorCode::ProtocolVersionMismatch.to_u8(), 0x04);
    assert_eq!(ErrorCode::InvalidState.to_u8(), 0x05);
    assert_eq!(ErrorCode::Generic.to_u8(), 0xFF);
}

#[test]
fn test_error_code_round_trip() {
    let codes = vec![
        ErrorCode::FidConflict,
        ErrorCode::TypeMismatch,
        ErrorCode::UnsupportedFeature,
        ErrorCode::ProtocolVersionMismatch,
        ErrorCode::InvalidState,
        ErrorCode::Generic,
    ];

    for code in codes {
        let byte = code.to_u8();
        let parsed = ErrorCode::from_u8(byte).unwrap();
        assert_eq!(parsed, code);
    }
}

#[test]
fn test_detect_type_mismatches_no_mismatches() {
    let mut expected = HashMap::new();
    expected.insert(1, TypeTag::Int);
    expected.insert(2, TypeTag::String);

    let mut actual = HashMap::new();
    actual.insert(1, TypeTag::Int);
    actual.insert(2, TypeTag::String);

    let mismatches = SchemaNegotiator::detect_type_mismatches(&expected, &actual);
    assert!(mismatches.is_empty());
}

#[test]
fn test_detect_type_mismatches_single_mismatch() {
    let mut expected = HashMap::new();
    expected.insert(1, TypeTag::Int);
    expected.insert(2, TypeTag::String);

    let mut actual = HashMap::new();
    actual.insert(1, TypeTag::Float); // Mismatch
    actual.insert(2, TypeTag::String);

    let mismatches = SchemaNegotiator::detect_type_mismatches(&expected, &actual);
    assert_eq!(mismatches.len(), 1);

    match &mismatches[0] {
        NegotiationError::TypeMismatch {
            fid,
            expected,
            found,
        } => {
            assert_eq!(*fid, 1);
            assert_eq!(*expected, TypeTag::Int);
            assert_eq!(*found, TypeTag::Float);
        }
        _ => panic!("Expected TypeMismatch"),
    }
}

#[test]
fn test_detect_type_mismatches_multiple_mismatches() {
    let mut expected = HashMap::new();
    expected.insert(1, TypeTag::Int);
    expected.insert(2, TypeTag::String);
    expected.insert(3, TypeTag::Bool);

    let mut actual = HashMap::new();
    actual.insert(1, TypeTag::Float); // Mismatch
    actual.insert(2, TypeTag::Bool); // Mismatch
    actual.insert(3, TypeTag::Bool);

    let mismatches = SchemaNegotiator::detect_type_mismatches(&expected, &actual);
    assert_eq!(mismatches.len(), 2);
}

#[test]
fn test_detect_type_mismatches_partial_overlap() {
    let mut expected = HashMap::new();
    expected.insert(1, TypeTag::Int);
    expected.insert(2, TypeTag::String);

    let mut actual = HashMap::new();
    actual.insert(2, TypeTag::String);
    actual.insert(3, TypeTag::Bool); // Not in expected, no mismatch

    let mismatches = SchemaNegotiator::detect_type_mismatches(&expected, &actual);
    assert!(mismatches.is_empty());
}

#[test]
fn test_detect_type_mismatches_empty_types() {
    let expected = HashMap::new();
    let actual = HashMap::new();

    let mismatches = SchemaNegotiator::detect_type_mismatches(&expected, &actual);
    assert!(mismatches.is_empty());
}

#[test]
fn test_detect_type_mismatches_nested_types() {
    let mut expected = HashMap::new();
    expected.insert(1, TypeTag::NestedRecord);
    expected.insert(2, TypeTag::NestedArray);

    let mut actual = HashMap::new();
    actual.insert(1, TypeTag::String); // Mismatch
    actual.insert(2, TypeTag::NestedArray);

    let mismatches = SchemaNegotiator::detect_type_mismatches(&expected, &actual);
    assert_eq!(mismatches.len(), 1);

    match &mismatches[0] {
        NegotiationError::TypeMismatch {
            fid,
            expected,
            found,
        } => {
            assert_eq!(*fid, 1);
            assert_eq!(*expected, TypeTag::NestedRecord);
            assert_eq!(*found, TypeTag::String);
        }
        _ => panic!("Expected TypeMismatch"),
    }
}

#[test]
fn test_detect_conflicts_no_conflicts() {
    let mut local = HashMap::new();
    local.insert(1, "user_id".to_string());
    local.insert(2, "username".to_string());

    let mut remote = HashMap::new();
    remote.insert(1, "user_id".to_string());
    remote.insert(2, "username".to_string());

    let conflicts = SchemaNegotiator::detect_conflicts(&local, &remote);
    assert!(conflicts.is_empty());
}

#[test]
fn test_detect_conflicts_single_conflict() {
    let mut local = HashMap::new();
    local.insert(1, "user_id".to_string());
    local.insert(2, "username".to_string());

    let mut remote = HashMap::new();
    remote.insert(1, "userId".to_string()); // Conflict
    remote.insert(2, "username".to_string());

    let conflicts = SchemaNegotiator::detect_conflicts(&local, &remote);
    assert_eq!(conflicts.len(), 1);

    match &conflicts[0] {
        NegotiationError::FidConflict { fid, name1, name2 } => {
            assert_eq!(*fid, 1);
            assert_eq!(name1, "user_id");
            assert_eq!(name2, "userId");
        }
        _ => panic!("Expected FidConflict"),
    }
}

#[test]
fn test_detect_conflicts_multiple_conflicts() {
    let mut local = HashMap::new();
    local.insert(1, "user_id".to_string());
    local.insert(2, "username".to_string());
    local.insert(3, "email".to_string());

    let mut remote = HashMap::new();
    remote.insert(1, "userId".to_string()); // Conflict
    remote.insert(2, "userName".to_string()); // Conflict
    remote.insert(3, "email".to_string());

    let conflicts = SchemaNegotiator::detect_conflicts(&local, &remote);
    assert_eq!(conflicts.len(), 2);
}

#[test]
fn test_detect_conflicts_partial_overlap() {
    let mut local = HashMap::new();
    local.insert(1, "user_id".to_string());
    local.insert(2, "username".to_string());

    let mut remote = HashMap::new();
    remote.insert(2, "username".to_string());
    remote.insert(3, "email".to_string()); // Not in local, no conflict

    let conflicts = SchemaNegotiator::detect_conflicts(&local, &remote);
    assert!(conflicts.is_empty());
}

#[test]
fn test_detect_conflicts_empty_mappings() {
    let local = HashMap::new();
    let remote = HashMap::new();

    let conflicts = SchemaNegotiator::detect_conflicts(&local, &remote);
    assert!(conflicts.is_empty());
}

#[test]
fn test_negotiation_state_equality() {
    assert_eq!(NegotiationState::Initial, NegotiationState::Initial);
    assert_eq!(
        NegotiationState::CapabilitiesSent,
        NegotiationState::CapabilitiesSent
    );
    assert_ne!(NegotiationState::Initial, NegotiationState::Ready);
}

#[test]
fn test_negotiation_session_new() {
    let local_caps = Capabilities::v0_5();
    let remote_caps = Capabilities::v0_5();
    let mut mappings = HashMap::new();
    mappings.insert(1, "user_id".to_string());

    let session = NegotiationSession::new(
        123,
        local_caps.clone(),
        remote_caps.clone(),
        mappings.clone(),
    );

    assert_eq!(session.session_id, 123);
    assert_eq!(session.local_caps, local_caps);
    assert_eq!(session.remote_caps, remote_caps);
    assert_eq!(session.fid_mappings, mappings);
    assert!(session.agreed_features.supports_nested);
}

#[test]
fn test_schema_negotiator_new() {
    let caps = Capabilities::v0_5();
    let negotiator = SchemaNegotiator::new(caps.clone());

    assert_eq!(negotiator.local_capabilities(), &caps);
    assert_eq!(negotiator.state(), &NegotiationState::Initial);
    assert!(negotiator.remote_capabilities().is_none());
    assert!(!negotiator.is_ready());
}

#[test]
fn test_schema_negotiator_v0_5() {
    let negotiator = SchemaNegotiator::v0_5();
    assert_eq!(negotiator.local_capabilities().version, 0x05);
    assert!(negotiator.local_capabilities().features.supports_nested);
}

#[test]
fn test_schema_negotiator_v0_4() {
    let negotiator = SchemaNegotiator::v0_4();
    assert_eq!(negotiator.local_capabilities().version, 0x04);
    assert!(!negotiator.local_capabilities().features.supports_nested);
}

#[test]
fn test_schema_negotiator_with_fid_mappings() {
    let mut mappings = HashMap::new();
    mappings.insert(1, "user_id".to_string());
    mappings.insert(2, "username".to_string());

    let negotiator = SchemaNegotiator::v0_5().with_fid_mappings(mappings.clone());
    assert_eq!(negotiator.fid_mappings, mappings);
}

#[test]
fn test_schema_negotiator_initiate() {
    let mut negotiator = SchemaNegotiator::v0_5();
    let result = negotiator.initiate();

    assert!(result.is_ok());
    assert_eq!(negotiator.state(), &NegotiationState::CapabilitiesSent);

    match result.unwrap() {
        NegotiationMessage::Capabilities { version, .. } => {
            assert_eq!(version, 0x05);
        }
        _ => panic!("Expected Capabilities message"),
    }
}

#[test]
fn test_schema_negotiator_initiate_invalid_state() {
    let mut negotiator = SchemaNegotiator::v0_5();
    negotiator.initiate().unwrap();

    // Try to initiate again
    let result = negotiator.initiate();
    assert!(result.is_err());
    match result {
        Err(NegotiationError::InvalidState { .. }) => {}
        _ => panic!("Expected InvalidState error"),
    }
}

#[test]
fn test_schema_negotiator_handle_capabilities() {
    let mut negotiator = SchemaNegotiator::v0_5();

    let msg = NegotiationMessage::Capabilities {
        version: 0x05,
        features: FeatureFlags::v0_5_full(),
        supported_types: vec![TypeTag::Int, TypeTag::String],
    };

    let result = negotiator.handle_message(msg);
    assert!(result.is_ok());
    assert_eq!(negotiator.state(), &NegotiationState::CapabilitiesReceived);

    match result.unwrap() {
        NegotiationResponse::SendMessage(NegotiationMessage::CapabilitiesAck {
            version, ..
        }) => {
            assert_eq!(version, 0x05);
        }
        _ => panic!("Expected SendMessage with CapabilitiesAck"),
    }
}

#[test]
fn test_schema_negotiator_handle_capabilities_version_mismatch() {
    let mut negotiator = SchemaNegotiator::v0_5();

    let msg = NegotiationMessage::Capabilities {
        version: 0x04, // Mismatch
        features: FeatureFlags::v0_4_compatible(),
        supported_types: vec![TypeTag::Int],
    };

    let result = negotiator.handle_message(msg);
    assert!(result.is_err());
    match result {
        Err(NegotiationError::ProtocolVersionMismatch { local, remote }) => {
            assert_eq!(local, 0x05);
            assert_eq!(remote, 0x04);
        }
        _ => panic!("Expected ProtocolVersionMismatch error"),
    }
}

#[test]
fn test_schema_negotiator_handle_capabilities_ack() {
    let mut negotiator = SchemaNegotiator::v0_5();
    negotiator.initiate().unwrap();

    let msg = NegotiationMessage::CapabilitiesAck {
        version: 0x05,
        features: FeatureFlags::v0_5_full(),
    };

    let result = negotiator.handle_message(msg);
    assert!(result.is_ok());
    assert_eq!(negotiator.state(), &NegotiationState::SchemaSelected);

    match result.unwrap() {
        NegotiationResponse::SendMessage(NegotiationMessage::SelectSchema { .. }) => {}
        _ => panic!("Expected SendMessage with SelectSchema"),
    }
}

#[test]
fn test_schema_negotiator_handle_select_schema() {
    let mut negotiator = SchemaNegotiator::v0_5();

    // Simulate receiving capabilities first
    negotiator.state = NegotiationState::CapabilitiesReceived;
    negotiator.remote_capabilities = Some(Capabilities::v0_5());

    let mut mappings = HashMap::new();
    mappings.insert(1, "user_id".to_string());

    let msg = NegotiationMessage::SelectSchema {
        schema_id: "test_schema".to_string(),
        fid_mappings: mappings,
    };

    let result = negotiator.handle_message(msg);
    assert!(result.is_ok());
    assert_eq!(negotiator.state(), &NegotiationState::SchemaSelected);

    match result.unwrap() {
        NegotiationResponse::SendMessage(NegotiationMessage::Ready { session_id }) => {
            assert_eq!(session_id, 1);
        }
        _ => panic!("Expected SendMessage with Ready"),
    }
}

#[test]
fn test_schema_negotiator_handle_select_schema_fid_conflict() {
    let mut local_mappings = HashMap::new();
    local_mappings.insert(1, "user_id".to_string());

    let mut negotiator = SchemaNegotiator::v0_5().with_fid_mappings(local_mappings);

    // Simulate receiving capabilities first
    negotiator.state = NegotiationState::CapabilitiesReceived;
    negotiator.remote_capabilities = Some(Capabilities::v0_5());

    let mut remote_mappings = HashMap::new();
    remote_mappings.insert(1, "username".to_string()); // Conflict!

    let msg = NegotiationMessage::SelectSchema {
        schema_id: "test_schema".to_string(),
        fid_mappings: remote_mappings,
    };

    let result = negotiator.handle_message(msg);
    assert!(result.is_err());
    match result {
        Err(NegotiationError::FidConflict { fid, name1, name2 }) => {
            assert_eq!(fid, 1);
            assert_eq!(name1, "user_id");
            assert_eq!(name2, "username");
        }
        _ => panic!("Expected FidConflict error"),
    }
}

#[test]
fn test_schema_negotiator_handle_ready() {
    let mut negotiator = SchemaNegotiator::v0_5();

    // Simulate schema selected state
    negotiator.state = NegotiationState::SchemaSelected;
    negotiator.remote_capabilities = Some(Capabilities::v0_5());

    let msg = NegotiationMessage::Ready { session_id: 42 };

    let result = negotiator.handle_message(msg);
    assert!(result.is_ok());
    assert_eq!(negotiator.state(), &NegotiationState::Ready);
    assert!(negotiator.is_ready());

    match result.unwrap() {
        NegotiationResponse::Complete(session) => {
            assert_eq!(session.session_id, 42);
        }
        _ => panic!("Expected Complete response"),
    }
}

#[test]
fn test_schema_negotiator_handle_error() {
    let mut negotiator = SchemaNegotiator::v0_5();

    let msg = NegotiationMessage::Error {
        code: ErrorCode::Generic,
        message: "Test error".to_string(),
    };

    let result = negotiator.handle_message(msg);
    assert!(result.is_ok());

    match negotiator.state() {
        NegotiationState::Failed(msg) => {
            assert_eq!(msg, "Test error");
        }
        _ => panic!("Expected Failed state"),
    }

    match result.unwrap() {
        NegotiationResponse::Failed(msg) => {
            assert_eq!(msg, "Test error");
        }
        _ => panic!("Expected Failed response"),
    }
}

#[test]
fn test_negotiation_error_display() {
    let err = NegotiationError::FidConflict {
        fid: 7,
        name1: "field_a".to_string(),
        name2: "field_b".to_string(),
    };
    let msg = err.message();
    assert!(msg.contains("FID 7"));
    assert!(msg.contains("field_a"));
    assert!(msg.contains("field_b"));
}

#[test]
fn test_full_negotiation_flow_client_initiated() {
    // Client side
    let mut client = SchemaNegotiator::v0_5();
    let mut client_mappings = HashMap::new();
    client_mappings.insert(1, "user_id".to_string());
    client = client.with_fid_mappings(client_mappings.clone());

    // Server side
    let mut server = SchemaNegotiator::v0_5();
    server = server.with_fid_mappings(client_mappings.clone());

    // Step 1: Client initiates
    let caps_msg = client.initiate().unwrap();
    assert_eq!(client.state(), &NegotiationState::CapabilitiesSent);

    // Step 2: Server receives capabilities and sends ack
    let server_response = server.handle_message(caps_msg).unwrap();
    assert_eq!(server.state(), &NegotiationState::CapabilitiesReceived);

    let ack_msg = match server_response {
        NegotiationResponse::SendMessage(msg) => msg,
        _ => panic!("Expected SendMessage"),
    };

    // Step 3: Client receives ack and sends schema selection
    let client_response = client.handle_message(ack_msg).unwrap();
    assert_eq!(client.state(), &NegotiationState::SchemaSelected);

    let select_msg = match client_response {
        NegotiationResponse::SendMessage(msg) => msg,
        _ => panic!("Expected SendMessage"),
    };

    // Step 4: Server receives schema selection and sends ready
    let server_response = server.handle_message(select_msg).unwrap();
    assert_eq!(server.state(), &NegotiationState::SchemaSelected);

    let ready_msg = match server_response {
        NegotiationResponse::SendMessage(msg) => msg,
        _ => panic!("Expected SendMessage"),
    };

    // Step 5: Client receives ready and completes
    let client_response = client.handle_message(ready_msg).unwrap();
    assert_eq!(client.state(), &NegotiationState::Ready);
    assert!(client.is_ready());

    match client_response {
        NegotiationResponse::Complete(session) => {
            assert_eq!(session.session_id, 1);
            assert!(session.agreed_features.supports_nested);
        }
        _ => panic!("Expected Complete response"),
    }
}

// ==================== Dynamic FID Discovery Tests (v0.5.14) ====================

#[test]
fn test_negotiator_request_registry() {
    let negotiator = SchemaNegotiator::v0_5().with_registry_version("1.0.0".to_string());

    // Request all FIDs
    let msg = negotiator.request_registry(None);
    match msg {
        NegotiationMessage::RequestRegistry {
            fid_range,
            include_types,
            local_version,
        } => {
            assert!(fid_range.is_none());
            assert!(include_types);
            assert_eq!(local_version, Some("1.0.0".to_string()));
        }
        _ => panic!("Expected RequestRegistry message"),
    }

    // Request specific range
    let msg = negotiator.request_registry(Some((0, 255)));
    match msg {
        NegotiationMessage::RequestRegistry { fid_range, .. } => {
            assert_eq!(fid_range, Some((0, 255)));
        }
        _ => panic!("Expected RequestRegistry message"),
    }
}

#[test]
fn test_negotiator_handle_registry_response() {
    let mut negotiator = SchemaNegotiator::v0_5();

    // Create test FID definitions
    let fids = vec![
        FidDefinition {
            fid: 1,
            name: "entity_id".to_string(),
            type_tag: TypeTag::Int,
            status: FidDefStatus::Active,
            since: "0.1.0".to_string(),
        },
        FidDefinition {
            fid: 7,
            name: "is_active".to_string(),
            type_tag: TypeTag::Bool,
            status: FidDefStatus::Active,
            since: "0.1.0".to_string(),
        },
        FidDefinition {
            fid: 99,
            name: "deprecated_field".to_string(),
            type_tag: TypeTag::Int,
            status: FidDefStatus::Deprecated,
            since: "0.1.0".to_string(),
        },
    ];

    negotiator.handle_registry_response("1.0.0".to_string(), fids);

    // Check agreed FIDs (only Active ones)
    assert!(negotiator.peer_supports_fid(1));
    assert!(negotiator.peer_supports_fid(7));
    assert!(!negotiator.peer_supports_fid(99)); // Deprecated not in agreed
    assert!(!negotiator.peer_supports_fid(100)); // Unknown

    // Check discovery complete
    assert!(negotiator.is_discovery_complete());

    // Check remote version stored
    assert_eq!(negotiator.remote_registry_version(), Some("1.0.0"));
}

#[test]
fn test_negotiator_handle_registry_delta() {
    let mut negotiator = SchemaNegotiator::v0_5();

    // First, add some initial FIDs
    let initial = vec![FidDefinition {
        fid: 1,
        name: "entity_id".to_string(),
        type_tag: TypeTag::Int,
        status: FidDefStatus::Active,
        since: "0.1.0".to_string(),
    }];
    negotiator.handle_registry_response("0.9.0".to_string(), initial);

    // Now apply delta
    let delta_msg = NegotiationMessage::RegistryDelta {
        base_version: "0.9.0".to_string(),
        target_version: "1.0.0".to_string(),
        added: vec![FidDefinition {
            fid: 12,
            name: "user_id".to_string(),
            type_tag: TypeTag::Int,
            status: FidDefStatus::Active,
            since: "1.0.0".to_string(),
        }],
        deprecated: vec![],
        tombstoned: vec![1], // Tombstone entity_id
    };

    let result = negotiator.handle_message(delta_msg);
    assert!(result.is_ok());

    // Check new FID added
    assert!(negotiator.peer_supports_fid(12));

    // Check tombstoned FID removed
    assert!(!negotiator.peer_supports_fid(1));

    // Check version updated
    assert_eq!(negotiator.remote_registry_version(), Some("1.0.0"));
}

#[test]
fn test_negotiator_create_registry_response() {
    let negotiator = SchemaNegotiator::v0_5().with_registry_version("1.0.0".to_string());

    let fids = vec![FidDefinition {
        fid: 1,
        name: "entity_id".to_string(),
        type_tag: TypeTag::Int,
        status: FidDefStatus::Active,
        since: "0.1.0".to_string(),
    }];

    let response = negotiator.create_registry_response(fids.clone());

    match response {
        NegotiationMessage::RegistryResponse {
            version,
            protocol_version,
            fids: resp_fids,
        } => {
            assert_eq!(version, "1.0.0");
            assert!(protocol_version.starts_with("0."));
            assert_eq!(resp_fids.len(), 1);
            assert_eq!(resp_fids[0].fid, 1);
        }
        _ => panic!("Expected RegistryResponse message"),
    }
}

#[test]
fn test_negotiator_agreed_fids() {
    let mut negotiator = SchemaNegotiator::v0_5();

    // Add some FIDs
    let fids = vec![
        FidDefinition {
            fid: 1,
            name: "entity_id".to_string(),
            type_tag: TypeTag::Int,
            status: FidDefStatus::Active,
            since: "0.1.0".to_string(),
        },
        FidDefinition {
            fid: 7,
            name: "is_active".to_string(),
            type_tag: TypeTag::Bool,
            status: FidDefStatus::Active,
            since: "0.1.0".to_string(),
        },
        FidDefinition {
            fid: 12,
            name: "user_id".to_string(),
            type_tag: TypeTag::Int,
            status: FidDefStatus::Active,
            since: "0.1.0".to_string(),
        },
    ];

    negotiator.handle_registry_response("1.0.0".to_string(), fids);

    let agreed = negotiator.agreed_fids();
    assert_eq!(agreed.len(), 3);
    assert!(agreed.contains(&1));
    assert!(agreed.contains(&7));
    assert!(agreed.contains(&12));
}

#[test]
fn test_fid_def_status_conversion() {
    assert_eq!(FidDefStatus::from_u8(0x00), Some(FidDefStatus::Proposed));
    assert_eq!(FidDefStatus::from_u8(0x01), Some(FidDefStatus::Active));
    assert_eq!(FidDefStatus::from_u8(0x02), Some(FidDefStatus::Deprecated));
    assert_eq!(FidDefStatus::from_u8(0x03), Some(FidDefStatus::Tombstoned));
    assert_eq!(FidDefStatus::from_u8(0xFF), None);

    assert_eq!(FidDefStatus::Proposed as u8, 0x00);
    assert_eq!(FidDefStatus::Active as u8, 0x01);
    assert_eq!(FidDefStatus::Deprecated as u8, 0x02);
    assert_eq!(FidDefStatus::Tombstoned as u8, 0x03);
}

