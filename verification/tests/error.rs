use lnmp_codec::error::ErrorContext;
use lnmp_codec::error::LnmpError;

#[test]
fn test_error_context_creation() {
    let ctx = ErrorContext::new(1, 5);
    assert_eq!(ctx.line, 1);
    assert_eq!(ctx.column, 5);
    assert!(ctx.source_snippet.is_empty());
    assert!(ctx.source_file.is_none());
}

#[test]
fn test_error_context_with_snippet() {
    let source = "F7:b=1\nF12:i=14532#DEADBEEF\nF23:sa=[admin,dev]";
    let ctx = ErrorContext::with_snippet(2, 15, source);
    assert_eq!(ctx.line, 2);
    assert_eq!(ctx.column, 15);
    assert!(ctx.source_snippet.contains("F12:i=14532"));
}

#[test]
fn test_error_context_with_file() {
    let source = "F7:b=1\nF12:i=14532";
    let ctx = ErrorContext::with_file(1, 5, source, "test.lnmp".to_string());
    assert_eq!(ctx.line, 1);
    assert_eq!(ctx.source_file, Some("test.lnmp".to_string()));
}

#[test]
fn test_invalid_character_display() {
    let error = LnmpError::InvalidCharacter {
        char: '@',
        line: 1,
        column: 5,
    };
    let msg = error.message();
    assert!(msg.contains("line 1"));
    assert!(msg.contains("column 5"));
    assert!(msg.contains("'@'"));
}

#[test]
fn test_unterminated_string_display() {
    let error = LnmpError::UnterminatedString {
        line: 1,
        column: 10,
    };
    let msg = error.message();
    assert!(msg.contains("line 1"));
    assert!(msg.contains("column 10"));
    assert!(msg.contains("Unterminated string"));
}

#[test]
fn test_unexpected_token_display() {
    let error = LnmpError::UnexpectedToken {
        expected: "equals sign".to_string(),
        found: "Semicolon".to_string(),
        line: 1,
        column: 5,
    };
    let msg = error.message();
    assert!(msg.contains("line 1"));
    assert!(msg.contains("column 5"));
    assert!(msg.contains("expected equals sign"));
}

#[test]
fn test_invalid_field_id_display() {
    let error = LnmpError::InvalidFieldId {
        value: "99999".to_string(),
        line: 2,
        column: 3,
    };
    let msg = error.message();
    assert!(msg.contains("line 2"));
    assert!(msg.contains("column 3"));
    assert!(msg.contains("99999"));
}

#[test]
fn test_invalid_value_display() {
    let error = LnmpError::InvalidValue {
        field_id: 12,
        reason: "not a valid integer".to_string(),
        line: 3,
        column: 10,
    };
    let msg = error.message();
    assert!(msg.contains("field 12"));
    assert!(msg.contains("line 3"));
    assert!(msg.contains("column 10"));
    assert!(msg.contains("not a valid integer"));
}

#[test]
fn test_unexpected_eof_display() {
    let error = LnmpError::UnexpectedEof { line: 5, column: 1 };
    let msg = error.message();
    assert!(msg.contains("line 5"));
    assert!(msg.contains("column 1"));
    assert!(msg.contains("end of file"));
}

#[test]
fn test_invalid_escape_sequence_display() {
    let error = LnmpError::InvalidEscapeSequence {
        sequence: "\\x".to_string(),
        line: 1,
        column: 15,
    };
    let msg = error.message();
    assert!(msg.contains("line 1"));
    assert!(msg.contains("column 15"));
    assert!(msg.contains("\\x"));
}

#[test]
fn test_checksum_mismatch_display() {
    let error = LnmpError::ChecksumMismatch {
        field_id: 12,
        expected: "6A93B3F1".to_string(),
        found: "DEADBEEF".to_string(),
        line: 2,
        column: 15,
    };
    let msg = error.message();
    assert!(msg.contains("field 12"));
    assert!(msg.contains("line 2"));
    assert!(msg.contains("column 15"));
    assert!(msg.contains("6A93B3F1"));
    assert!(msg.contains("DEADBEEF"));
}

#[test]
fn test_nesting_too_deep_display() {
    let error = LnmpError::NestingTooDeep {
        max_depth: 10,
        actual_depth: 15,
        line: 5,
        column: 20,
    };
    let msg = error.message();
    assert!(msg.contains("line 5"));
    assert!(msg.contains("column 20"));
    assert!(msg.contains("10"));
    assert!(msg.contains("15"));
    assert!(msg.contains("Nesting too deep"));
}

#[test]
fn test_invalid_nested_structure_display() {
    let error = LnmpError::InvalidNestedStructure {
        reason: "mismatched braces".to_string(),
        line: 3,
        column: 12,
    };
    let msg = error.message();
    assert!(msg.contains("line 3"));
    assert!(msg.contains("column 12"));
    assert!(msg.contains("mismatched braces"));
}

#[test]
fn test_unclosed_nested_structure_display() {
    let error = LnmpError::UnclosedNestedStructure {
        structure_type: "record".to_string(),
        opened_at_line: 1,
        opened_at_column: 5,
        line: 3,
        column: 1,
    };
    let msg = error.message();
    assert!(msg.contains("record"));
    assert!(msg.contains("line 3"));
    assert!(msg.contains("column 1"));
    assert!(msg.contains("line 1"));
    assert!(msg.contains("column 5"));
}

#[test]
fn test_format_with_source() {
    let source = "F7:b=1\nF12:i=14532#DEADBEEF\nF23:sa=[admin,dev]";
    let error = LnmpError::ChecksumMismatch {
        field_id: 12,
        expected: "6A93B3F1".to_string(),
        found: "DEADBEEF".to_string(),
        line: 2,
        column: 15,
    };
    let formatted = error.format_with_source(source);
    assert!(formatted.contains("Error:"));
    assert!(formatted.contains("F12:i=14532#DEADBEEF"));
    assert!(formatted.contains("^ here"));
}

#[test]
fn test_error_position() {
    let error = LnmpError::NestingTooDeep {
        max_depth: 10,
        actual_depth: 15,
        line: 5,
        column: 20,
    };
    let (line, column) = error.position();
    assert_eq!(line, 5);
    assert_eq!(column, 20);
}

#[test]
fn test_error_equality() {
    let error1 = LnmpError::UnexpectedEof { line: 1, column: 1 };
    let error2 = LnmpError::UnexpectedEof { line: 1, column: 1 };
    let error3 = LnmpError::UnexpectedEof { line: 2, column: 1 };

    assert_eq!(error1, error2);
    assert_ne!(error1, error3);
}

#[test]
fn test_error_clone() {
    let error = LnmpError::InvalidFieldId {
        value: "test".to_string(),
        line: 1,
        column: 1,
    };
    let cloned = error.clone();
    assert_eq!(error, cloned);
}

#[test]
fn test_error_context_equality() {
    let ctx1 = ErrorContext::new(1, 5);
    let ctx2 = ErrorContext::new(1, 5);
    let ctx3 = ErrorContext::new(2, 5);

    assert_eq!(ctx1, ctx2);
    assert_ne!(ctx1, ctx3);
}

