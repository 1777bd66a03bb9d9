use lnmp_codec::equivalence::EquivalenceMapper;

#[test]
fn test_new_mapper_is_empty() {
    let mapper = EquivalenceMapper::new();
    assert_eq!(mapper.field_count(), 0);
}

#[test]
fn test_add_single_mapping() {
    let mut mapper = EquivalenceMapper::new();
    mapper.add_mapping(12, "admin".to_string(), "administrator".to_string());

    assert_eq!(
        mapper.map(12, "admin"),
        Some("administrator".to_string())
    );
    assert_eq!(mapper.map(12, "user"), None);
    assert_eq!(mapper.field_count(), 1);
    assert_eq!(mapper.mapping_count(12), 1);
}

#[test]
fn test_add_multiple_mappings_same_field() {
    let mut mapper = EquivalenceMapper::new();
    mapper.add_mapping(12, "admin".to_string(), "administrator".to_string());
    mapper.add_mapping(12, "dev".to_string(), "developer".to_string());
    mapper.add_mapping(12, "qa".to_string(), "quality_assurance".to_string());

    assert_eq!(
        mapper.map(12, "admin"),
        Some("administrator".to_string())
    );
    assert_eq!(mapper.map(12, "dev"), Some("developer".to_string()));
    assert_eq!(
        mapper.map(12, "qa"),
        Some("quality_assurance".to_string())
    );
    assert_eq!(mapper.field_count(), 1);
    assert_eq!(mapper.mapping_count(12), 3);
}

#[test]
fn test_add_mappings_different_fields() {
    let mut mapper = EquivalenceMapper::new();
    mapper.add_mapping(12, "admin".to_string(), "administrator".to_string());
    mapper.add_mapping(7, "yes".to_string(), "1".to_string());

    assert_eq!(
        mapper.map(12, "admin"),
        Some("administrator".to_string())
    );
    assert_eq!(mapper.map(7, "yes"), Some("1".to_string()));
    assert_eq!(mapper.map(12, "yes"), None); // Different field
    assert_eq!(mapper.map(7, "admin"), None); // Different field
    assert_eq!(mapper.field_count(), 2);
}

#[test]
fn test_add_mappings_bulk() {
    let mut mapper = EquivalenceMapper::new();
    let mappings = vec![
        ("admin".to_string(), "administrator".to_string()),
        ("dev".to_string(), "developer".to_string()),
        ("qa".to_string(), "quality_assurance".to_string()),
    ];
    mapper.add_mappings(12, mappings);

    assert_eq!(
        mapper.map(12, "admin"),
        Some("administrator".to_string())
    );
    assert_eq!(mapper.map(12, "dev"), Some("developer".to_string()));
    assert_eq!(
        mapper.map(12, "qa"),
        Some("quality_assurance".to_string())
    );
    assert_eq!(mapper.mapping_count(12), 3);
}

#[test]
fn test_apply_default_bool_mappings() {
    let mut mapper = EquivalenceMapper::new();
    mapper.apply_default_bool_mappings(7);

    // Test true variants
    assert_eq!(mapper.map(7, "yes"), Some("1".to_string()));
    assert_eq!(mapper.map(7, "Yes"), Some("1".to_string()));
    assert_eq!(mapper.map(7, "YES"), Some("1".to_string()));
    assert_eq!(mapper.map(7, "true"), Some("1".to_string()));
    assert_eq!(mapper.map(7, "True"), Some("1".to_string()));
    assert_eq!(mapper.map(7, "TRUE"), Some("1".to_string()));

    // Test false variants
    assert_eq!(mapper.map(7, "no"), Some("0".to_string()));
    assert_eq!(mapper.map(7, "No"), Some("0".to_string()));
    assert_eq!(mapper.map(7, "NO"), Some("0".to_string()));
    assert_eq!(mapper.map(7, "false"), Some("0".to_string()));
    assert_eq!(mapper.map(7, "False"), Some("0".to_string()));
    assert_eq!(mapper.map(7, "FALSE"), Some("0".to_string()));

    // Test unmapped values
    assert_eq!(mapper.map(7, "maybe"), None);
    assert_eq!(mapper.map(7, "1"), None);
    assert_eq!(mapper.map(7, "0"), None);
}

#[test]
fn test_has_mapping() {
    let mut mapper = EquivalenceMapper::new();
    mapper.add_mapping(12, "admin".to_string(), "administrator".to_string());

    assert!(mapper.has_mapping(12, "admin"));
    assert!(!mapper.has_mapping(12, "user"));
    assert!(!mapper.has_mapping(7, "admin"));
}

#[test]
fn test_mapping_count() {
    let mut mapper = EquivalenceMapper::new();
    assert_eq!(mapper.mapping_count(12), 0);

    mapper.add_mapping(12, "admin".to_string(), "administrator".to_string());
    assert_eq!(mapper.mapping_count(12), 1);

    mapper.add_mapping(12, "dev".to_string(), "developer".to_string());
    assert_eq!(mapper.mapping_count(12), 2);

    mapper.add_mapping(7, "yes".to_string(), "1".to_string());
    assert_eq!(mapper.mapping_count(12), 2);
    assert_eq!(mapper.mapping_count(7), 1);
}

#[test]
fn test_field_count() {
    let mut mapper = EquivalenceMapper::new();
    assert_eq!(mapper.field_count(), 0);

    mapper.add_mapping(12, "admin".to_string(), "administrator".to_string());
    assert_eq!(mapper.field_count(), 1);

    mapper.add_mapping(12, "dev".to_string(), "developer".to_string());
    assert_eq!(mapper.field_count(), 1); // Same field

    mapper.add_mapping(7, "yes".to_string(), "1".to_string());
    assert_eq!(mapper.field_count(), 2); // Different field
}

#[test]
fn test_clear_field() {
    let mut mapper = EquivalenceMapper::new();
    mapper.add_mapping(12, "admin".to_string(), "administrator".to_string());
    mapper.add_mapping(12, "dev".to_string(), "developer".to_string());
    mapper.add_mapping(7, "yes".to_string(), "1".to_string());

    assert_eq!(mapper.field_count(), 2);
    assert_eq!(mapper.mapping_count(12), 2);

    mapper.clear_field(12);
    assert_eq!(mapper.field_count(), 1);
    assert_eq!(mapper.mapping_count(12), 0);
    assert_eq!(mapper.mapping_count(7), 1);
    assert_eq!(mapper.map(12, "admin"), None);
    assert_eq!(mapper.map(7, "yes"), Some("1".to_string()));
}

#[test]
fn test_clear_all() {
    let mut mapper = EquivalenceMapper::new();
    mapper.add_mapping(12, "admin".to_string(), "administrator".to_string());
    mapper.add_mapping(7, "yes".to_string(), "1".to_string());

    assert_eq!(mapper.field_count(), 2);

    mapper.clear();
    assert_eq!(mapper.field_count(), 0);
    assert_eq!(mapper.map(12, "admin"), None);
    assert_eq!(mapper.map(7, "yes"), None);
}

#[test]
fn test_overwrite_mapping() {
    let mut mapper = EquivalenceMapper::new();
    mapper.add_mapping(12, "admin".to_string(), "administrator".to_string());
    assert_eq!(
        mapper.map(12, "admin"),
        Some("administrator".to_string())
    );

    // Overwrite with new mapping
    mapper.add_mapping(12, "admin".to_string(), "superuser".to_string());
    assert_eq!(mapper.map(12, "admin"), Some("superuser".to_string()));
    assert_eq!(mapper.mapping_count(12), 1);
}

#[test]
fn test_case_sensitive_mapping() {
    let mut mapper = EquivalenceMapper::new();
    mapper.add_mapping(12, "admin".to_string(), "administrator".to_string());
    mapper.add_mapping(12, "Admin".to_string(), "Administrator".to_string());

    assert_eq!(
        mapper.map(12, "admin"),
        Some("administrator".to_string())
    );
    assert_eq!(
        mapper.map(12, "Admin"),
        Some("Administrator".to_string())
    );
    assert_eq!(mapper.map(12, "ADMIN"), None);
}

#[test]
fn test_empty_string_mapping() {
    let mut mapper = EquivalenceMapper::new();
    mapper.add_mapping(12, "".to_string(), "empty".to_string());

    assert_eq!(mapper.map(12, ""), Some("empty".to_string()));
}

#[test]
fn test_with_defaults() {
    let mapper = EquivalenceMapper::with_defaults();
    assert_eq!(mapper.field_count(), 0);
}

#[test]
fn test_default_trait() {
    let mapper = EquivalenceMapper::default();
    assert_eq!(mapper.field_count(), 0);
}

#[test]
fn test_clone() {
    let mut mapper = EquivalenceMapper::new();
    mapper.add_mapping(12, "admin".to_string(), "administrator".to_string());

    let cloned = mapper.clone();
    assert_eq!(
        cloned.map(12, "admin"),
        Some("administrator".to_string())
    );
    assert_eq!(cloned.field_count(), 1);
}

#[test]
fn test_multiple_fields_with_same_mapping_value() {
    let mut mapper = EquivalenceMapper::new();
    mapper.add_mapping(12, "admin".to_string(), "administrator".to_string());
    mapper.add_mapping(15, "admin".to_string(), "admin_user".to_string());

    // Same source value, different canonical values per field
    assert_eq!(
        mapper.map(12, "admin"),
        Some("administrator".to_string())
    );
    assert_eq!(mapper.map(15, "admin"), Some("admin_user".to_string()));
}

#[test]
fn test_unicode_mapping() {
    let mut mapper = EquivalenceMapper::new();
    mapper.add_mapping(12, "café".to_string(), "coffee_shop".to_string());
    mapper.add_mapping(12, "日本".to_string(), "japan".to_string());

    assert_eq!(mapper.map(12, "café"), Some("coffee_shop".to_string()));
    assert_eq!(mapper.map(12, "日本"), Some("japan".to_string()));
}

