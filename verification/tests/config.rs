use lnmp_codec::config::EncoderConfig;
use lnmp_codec::config::ParserConfig;
use lnmp_codec::config::ParsingMode;
use lnmp_codec::config::PromptOptimizationConfig;
use lnmp_codec::equivalence::EquivalenceMapper;

#[test]
fn test_parsing_mode_default() {
    assert_eq!(ParsingMode::default(), ParsingMode::Loose);
}

#[test]
fn test_encoder_config_default() {
    let config = EncoderConfig::default();
    assert!(!config.include_type_hints);
    assert!(config.canonical);
    assert!(!config.enable_checksums);
    assert!(!config.enable_explain_mode);
    assert!(!config.prompt_optimization.minimize_symbols);
    assert!(!config.prompt_optimization.align_token_boundaries);
    assert!(!config.prompt_optimization.optimize_arrays);
    assert!(config.equivalence_mapper.is_none());
}

#[test]
fn test_parsing_mode_equality() {
    assert_eq!(ParsingMode::Strict, ParsingMode::Strict);
    assert_eq!(ParsingMode::Loose, ParsingMode::Loose);
    assert_ne!(ParsingMode::Strict, ParsingMode::Loose);
}

#[test]
fn test_encoder_config_with_checksums() {
    let config = EncoderConfig::new().with_checksums(true);
    assert!(config.enable_checksums);
}

#[test]
fn test_encoder_config_with_explain_mode() {
    let config = EncoderConfig::new().with_explain_mode(true);
    assert!(config.enable_explain_mode);
}

#[test]
fn test_encoder_config_with_prompt_optimization() {
    let prompt_opt = PromptOptimizationConfig {
        minimize_symbols: true,
        align_token_boundaries: true,
        optimize_arrays: true,
    };
    let config = EncoderConfig::new().with_prompt_optimization(prompt_opt);
    assert!(config.prompt_optimization.minimize_symbols);
    assert!(config.prompt_optimization.align_token_boundaries);
    assert!(config.prompt_optimization.optimize_arrays);
}

#[test]
fn test_encoder_config_with_equivalence_mapper() {
    let mut mapper = EquivalenceMapper::new();
    mapper.add_mapping(7, "yes".to_string(), "1".to_string());
    
    let config = EncoderConfig::new().with_equivalence_mapper(mapper);
    assert!(config.equivalence_mapper.is_some());
    
    let mapper_ref = config.equivalence_mapper.as_ref().unwrap();
    assert_eq!(mapper_ref.map(7, "yes"), Some("1".to_string()));
}

#[test]
fn test_encoder_config_with_type_hints() {
    let config = EncoderConfig::new().with_type_hints(true);
    assert!(config.include_type_hints);
}

#[test]
fn test_encoder_config_with_canonical() {
    let config = EncoderConfig::new().with_canonical(false);
    assert!(!config.canonical);
}

#[test]
fn test_encoder_config_builder_chain() {
    let mut mapper = EquivalenceMapper::new();
    mapper.add_mapping(7, "yes".to_string(), "1".to_string());
    
    let config = EncoderConfig::new()
        .with_checksums(true)
        .with_explain_mode(true)
        .with_type_hints(true)
        .with_equivalence_mapper(mapper);
    
    assert!(config.enable_checksums);
    assert!(config.enable_explain_mode);
    assert!(config.include_type_hints);
    assert!(config.equivalence_mapper.is_some());
}

#[test]
fn test_prompt_optimization_config_default() {
    let config = PromptOptimizationConfig::default();
    assert!(!config.minimize_symbols);
    assert!(!config.align_token_boundaries);
    assert!(!config.optimize_arrays);
}

#[test]
fn test_parser_config_default() {
    let config = ParserConfig::default();
    assert_eq!(config.mode, ParsingMode::Loose);
    assert!(!config.validate_checksums);
    assert!(!config.require_checksums);
    assert!(config.max_nesting_depth.is_none());
}

#[test]
fn test_parser_config_with_checksum_validation() {
    let config = ParserConfig {
        mode: ParsingMode::Strict,
        validate_checksums: true,
        normalize_values: false,
        require_checksums: false,
        max_nesting_depth: None,
    };
    assert_eq!(config.mode, ParsingMode::Strict);
    assert!(config.validate_checksums);
    assert!(!config.require_checksums);
}

#[test]
fn test_parser_config_with_required_checksums() {
    let config = ParserConfig {
        mode: ParsingMode::Strict,
        validate_checksums: true,
        normalize_values: false,
        require_checksums: true,
        max_nesting_depth: None,
    };
    assert!(config.validate_checksums);
    assert!(config.require_checksums);
}

