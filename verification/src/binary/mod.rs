//! Binary protocol for LNMP records.

pub mod decoder;
pub mod delta;
pub mod delta_props;
pub mod encoder;
pub mod entry;
pub mod error;
pub mod frame;
pub mod negotiation;
pub mod nested_decoder;
pub mod nested_encoder;
pub mod streaming;
pub mod types;
pub mod wire;
pub mod varint;
