//! Verified codec for the LNMP record format: signed LEB128 integers,
//! the v0.4 binary frame, v0.5 nested structures, delta packets,
//! the streaming frame layer and schema negotiation.

pub mod binary;
pub mod canonical;
pub mod config;
pub mod container;
pub mod equivalence;
pub mod error;
pub mod numfmt;
pub mod record;
pub mod text;
