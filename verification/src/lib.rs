//! Streaming text-encoding support and document chunking for YAML 1.2 byte
//! streams.
//!
//! The crate detects the text encoding of a stream from its leading bytes,
//! re-encodes UTF-16 and UTF-32 input to UTF-8 (stripping a single leading
//! byte order mark), and splits the canonical UTF-8 stream into one raw byte
//! span per document, guided by an external event source.

pub mod buffer;
pub mod chunk;
pub mod encode;
pub mod encoding;
pub mod laws;
pub mod model;
pub mod source;
