//! Codec for Epic Games download manifests: the binary and JSON wire
//! formats, the chunk addressing scheme derived from a manifest, and the
//! plain records exchanged with the store's web services.

pub mod api;
