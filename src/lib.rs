//! Decoder for the block framing of a DEFLATE-style compressed stream.
//!
//! A stream is a chain of blocks. Each block starts with a header byte whose
//! bit 0 marks the final block and whose bits 1-2 select the body type. Only
//! stored (uncompressed) bodies are decodable: a little-endian 16-bit length,
//! its one's complement, and that many payload bytes.
//!
//! The executable decoder is proved against the mathematical model in
//! `format`; the laws the format obeys are proved in `laws`.
pub mod cursor;
pub mod format;
pub mod decode;
pub mod laws;

pub use cursor::Cursor;
pub use decode::{Block, Deflate};
pub use format::Error;
