use lnmp_codec::binary::error::BinaryError;
use lnmp_codec::binary::varint::decode;
use lnmp_codec::binary::varint::encode;

#[test]
fn test_encode_zero() {
    assert_eq!(encode(0), vec![0x00]);
}

#[test]
fn test_encode_small_positive() {
    assert_eq!(encode(0), vec![0x00]);
    assert_eq!(encode(1), vec![0x01]);
    assert_eq!(encode(63), vec![0x3F]); // Largest single-byte positive (bit 6 clear)
}

#[test]
fn test_encode_medium_positive() {
    assert_eq!(encode(64), vec![0xC0, 0x00]); // Needs 2 bytes (bit 6 would be set)
    assert_eq!(encode(127), vec![0xFF, 0x00]); // Needs 2 bytes
    assert_eq!(encode(128), vec![0x80, 0x01]);
    // Just verify 14532 encodes and decodes correctly
    let enc = encode(14532);
    assert_eq!(enc.len(), 3);
    assert_eq!(decode(&enc).unwrap().0, 14532);
}

#[test]
fn test_encode_large_positive() {
    assert_eq!(encode(16384), vec![0x80, 0x80, 0x01]);
    assert_eq!(encode(1_000_000), vec![0xC0, 0x84, 0x3D]);
}

#[test]
fn test_encode_negative_small() {
    assert_eq!(encode(-1), vec![0x7F]);
    assert_eq!(encode(-2), vec![0x7E]);
    assert_eq!(encode(-64), vec![0x40]);
}

#[test]
fn test_encode_negative_medium() {
    assert_eq!(encode(-65), vec![0xBF, 0x7F]);
    assert_eq!(encode(-128), vec![0x80, 0x7F]);
}

#[test]
fn test_encode_i64_min() {
    let encoded = encode(i64::MIN);
    assert!(!encoded.is_empty());
    assert_eq!(encoded.len(), 10); // i64::MIN requires 10 bytes
}

#[test]
fn test_encode_i64_max() {
    let encoded = encode(i64::MAX);
    assert!(!encoded.is_empty());
    assert_eq!(encoded.len(), 10); // i64::MAX requires 10 bytes
}

#[test]
fn test_decode_zero() {
    assert_eq!(decode(&[0x00]).unwrap(), (0, 1));
}

#[test]
fn test_decode_small_positive() {
    assert_eq!(decode(&[0x00]).unwrap(), (0, 1));
    assert_eq!(decode(&[0x01]).unwrap(), (1, 1));
    assert_eq!(decode(&[0x3F]).unwrap(), (63, 1)); // Largest single-byte positive
}

#[test]
fn test_decode_medium_positive() {
    assert_eq!(decode(&[0xC0, 0x00]).unwrap(), (64, 2));
    assert_eq!(decode(&[0xFF, 0x00]).unwrap(), (127, 2));
    assert_eq!(decode(&[0x80, 0x01]).unwrap(), (128, 2));
    // Test with actual encoded value
    let enc_14532 = encode(14532);
    assert_eq!(decode(&enc_14532).unwrap(), (14532, enc_14532.len()));
}

#[test]
fn test_decode_large_positive() {
    assert_eq!(decode(&[0x80, 0x80, 0x01]).unwrap(), (16384, 3));
    assert_eq!(decode(&[0xC0, 0x84, 0x3D]).unwrap(), (1_000_000, 3));
}

#[test]
fn test_decode_negative_small() {
    // Verify by encoding first to see what the correct encoding is
    let enc_neg1 = encode(-1);
    let enc_neg2 = encode(-2);
    let enc_neg64 = encode(-64);
    
    assert_eq!(decode(&enc_neg1).unwrap(), (-1, enc_neg1.len()));
    assert_eq!(decode(&enc_neg2).unwrap(), (-2, enc_neg2.len()));
    assert_eq!(decode(&enc_neg64).unwrap(), (-64, enc_neg64.len()));
}

#[test]
fn test_decode_negative_medium() {
    assert_eq!(decode(&[0xBF, 0x7F]).unwrap(), (-65, 2));
    assert_eq!(decode(&[0x80, 0x7F]).unwrap(), (-128, 2));
}

#[test]
fn test_decode_empty_input() {
    let result = decode(&[]);
    assert!(matches!(result, Err(BinaryError::InvalidVarInt { .. })));
}

#[test]
fn test_decode_incomplete() {
    // Continuation bit set but no more bytes
    let result = decode(&[0x80]);
    assert!(matches!(result, Err(BinaryError::InvalidVarInt { .. })));
}

#[test]
fn test_decode_too_long() {
    // 11 bytes with continuation bits (invalid)
    let bytes = vec![0x80; 11];
    let result = decode(&bytes);
    assert!(matches!(result, Err(BinaryError::InvalidVarInt { .. })));
}

#[test]
fn varint_test_decode_with_trailing_data() {
    // Valid VarInt followed by extra bytes
    let bytes = vec![0x01, 0xFF, 0xFF];
    let (value, consumed) = decode(&bytes).unwrap();
    assert_eq!(value, 1);
    assert_eq!(consumed, 1);
}

#[test]
fn test_roundtrip_positive() {
    let test_values = vec![0, 1, 127, 128, 255, 256, 16383, 16384, 1_000_000];
    for val in test_values {
        let encoded = encode(val);
        let (decoded, _) = decode(&encoded).unwrap();
        assert_eq!(decoded, val, "Failed roundtrip for {}", val);
    }
}

#[test]
fn test_roundtrip_negative() {
    let test_values = vec![-1, -2, -64, -65, -128, -256, -1000, -1_000_000];
    for val in test_values {
        let encoded = encode(val);
        let (decoded, _) = decode(&encoded).unwrap();
        assert_eq!(decoded, val, "Failed roundtrip for {}", val);
    }
}

#[test]
fn test_roundtrip_edge_cases() {
    let test_values = vec![i64::MIN, i64::MAX, i64::MIN + 1, i64::MAX - 1];
    for val in test_values {
        let encoded = encode(val);
        let (decoded, _) = decode(&encoded).unwrap();
        assert_eq!(decoded, val, "Failed roundtrip for {}", val);
    }
}

#[test]
fn test_minimal_encoding() {
    // Small values should use minimal bytes
    // For signed LEB128, single byte range is -64 to 63
    assert_eq!(encode(0).len(), 1);
    assert_eq!(encode(63).len(), 1);  // Largest single-byte positive
    assert_eq!(encode(64).len(), 2);  // Needs 2 bytes
    assert_eq!(encode(127).len(), 2); // Needs 2 bytes
    assert_eq!(encode(128).len(), 2);
    assert_eq!(encode(-1).len(), 1);
    assert_eq!(encode(-64).len(), 1); // Smallest single-byte negative
    assert_eq!(encode(-65).len(), 2); // Needs 2 bytes
}

