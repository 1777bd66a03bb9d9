//! Configuration types for LNMP parsing and encoding.

use vstd::prelude::*;
use crate::equivalence::EquivalenceMapper;

verus! {

/// How text input is preprocessed before parsing.
#[derive(Debug, Clone, Copy, PartialEq, Eq, Structural)]
pub enum TextInputMode {
    /// Input is taken as it is.
    Strict,
    /// Input is sanitized before parsing.
    Lenient,
}

/// Parsing mode.
#[derive(Debug, Clone, Copy, PartialEq, Eq, Structural)]
pub enum ParsingMode {
    /// Only the canonical LNMP format is accepted.
    Strict,
    /// Formatting variations are tolerated (the default).
    Loose,
}

impl Default for ParsingMode {
    fn default() -> (m: Self)
        ensures
            m == ParsingMode::Loose,
    {
        ParsingMode::Loose
    }
}

/// Parser configuration.
#[derive(Debug, Clone, Copy, PartialEq, Eq, Structural)]
pub struct ParserConfig {
    /// Parsing mode (strict or loose).
    pub mode: ParsingMode,
    /// Whether checksums are validated when present.
    pub validate_checksums: bool,
    /// Whether text values are normalized into numeric or boolean types when possible.
    pub normalize_values: bool,
    /// Whether every field must carry a checksum.
    pub require_checksums: bool,
    /// Maximum nesting depth; `None` sets no limit.
    pub max_nesting_depth: Option<usize>,
}

impl Default for ParserConfig {
    /// Loose mode, values normalized, no checksum checks, no depth limit.
    fn default() -> (c: Self)
        ensures
            c == (ParserConfig {
                mode: ParsingMode::Loose,
                validate_checksums: false,
                normalize_values: true,
                require_checksums: false,
                max_nesting_depth: None,
            }),
    {
        ParserConfig {
            mode: ParsingMode::Loose,
            validate_checksums: false,
            normalize_values: true,
            require_checksums: false,
            max_nesting_depth: None,
        }
    }
}

/// Options of encoding tuned for language-model tokenizers.
#[derive(Debug, Clone, Copy, PartialEq, Eq, Structural)]
pub struct PromptOptimizationConfig {
    /// Whether symbols are minimized for better tokenization.
    pub minimize_symbols: bool,
    /// Whether output is aligned with common tokenizer boundaries.
    pub align_token_boundaries: bool,
    /// Whether array encoding is optimized.
    pub optimize_arrays: bool,
}

impl Default for PromptOptimizationConfig {
    /// Every option off.
    fn default() -> (c: Self)
        ensures
            c == (PromptOptimizationConfig {
                minimize_symbols: false,
                align_token_boundaries: false,
                optimize_arrays: false,
            }),
    {
        PromptOptimizationConfig {
            minimize_symbols: false,
            align_token_boundaries: false,
            optimize_arrays: false,
        }
    }
}

/// Configuration of the text encoder.
#[derive(Debug, Clone)]
pub struct EncoderConfig {
    /// Whether type hints are written.
    pub include_type_hints: bool,
    /// Whether the canonical format is used.
    pub canonical: bool,
    /// Whether semantic checksums are appended.
    pub enable_checksums: bool,
    /// Whether explain mode adds inline comments.
    pub enable_explain_mode: bool,
    /// Encoding tuned for language-model tokenizers.
    pub prompt_optimization: PromptOptimizationConfig,
    /// Synonyms mapped to canonical values.
    pub equivalence_mapper: Option<EquivalenceMapper>,
}

impl Default for EncoderConfig {
    /// Canonical format; no type hints, checksums, explain mode, prompt
    /// optimization or synonyms.
    fn default() -> (c: Self)
        ensures
            !c.include_type_hints,
            c.canonical,
            !c.enable_checksums,
            !c.enable_explain_mode,
            c.prompt_optimization == (PromptOptimizationConfig {
                minimize_symbols: false,
                align_token_boundaries: false,
                optimize_arrays: false,
            }),
            c.equivalence_mapper is None,
    {
        EncoderConfig {
            include_type_hints: false,
            canonical: true,
            enable_checksums: false,
            enable_explain_mode: false,
            prompt_optimization: PromptOptimizationConfig::default(),
            equivalence_mapper: None,
        }
    }
}

impl EncoderConfig {
    /// The default configuration.
    pub fn new() -> (c: Self)
        ensures
            !c.include_type_hints,
            c.canonical,
            !c.enable_checksums,
            !c.enable_explain_mode,
            c.prompt_optimization == (PromptOptimizationConfig {
                minimize_symbols: false,
                align_token_boundaries: false,
                optimize_arrays: false,
            }),
            c.equivalence_mapper is None,
    {
        Self::default()
    }

    /// Turns semantic checksums on or off.
    pub fn with_checksums(self, enable: bool) -> (c: Self)
        ensures
            c == (EncoderConfig { enable_checksums: enable, ..self }),
    {
        EncoderConfig { enable_checksums: enable, ..self }
    }

    /// Turns explain mode on or off.
    pub fn with_explain_mode(self, enable: bool) -> (c: Self)
        ensures
            c == (EncoderConfig { enable_explain_mode: enable, ..self }),
    {
        EncoderConfig { enable_explain_mode: enable, ..self }
    }

    /// Sets the prompt optimization options.
    pub fn with_prompt_optimization(self, config: PromptOptimizationConfig) -> (c: Self)
        ensures
            c == (EncoderConfig { prompt_optimization: config, ..self }),
    {
        EncoderConfig { prompt_optimization: config, ..self }
    }

    /// Sets the synonym mapper.
    pub fn with_equivalence_mapper(self, mapper: EquivalenceMapper) -> (c: Self)
        ensures
            c == (EncoderConfig { equivalence_mapper: Some(mapper), ..self }),
    {
        EncoderConfig { equivalence_mapper: Some(mapper), ..self }
    }

    /// Turns type hints on or off.
    pub fn with_type_hints(self, enable: bool) -> (c: Self)
        ensures
            c == (EncoderConfig { include_type_hints: enable, ..self }),
    {
        EncoderConfig { include_type_hints: enable, ..self }
    }

    /// Turns the canonical format on or off.
    pub fn with_canonical(self, enable: bool) -> (c: Self)
        ensures
            c == (EncoderConfig { canonical: enable, ..self }),
    {
        EncoderConfig { canonical: enable, ..self }
    }
}

} // verus!
