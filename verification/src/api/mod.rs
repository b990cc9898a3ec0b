//! Manifest codec, its helpers and the service record types.

pub mod binary;
pub mod endpoints;
pub mod error;
pub mod foreign;
pub mod inverse;
pub mod json;
pub mod json_codec;
pub mod payload;
pub mod table;
pub mod text;
pub mod types;
pub mod utils;
pub mod writer;
