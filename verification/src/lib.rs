//! A decoder for the QOI lossless image format.
//!
//! A QOI stream is a 14-byte header followed by a sequence of variable-length
//! opcodes. Decoding is a single pass that keeps a 64-slot cache of recently
//! seen pixels and the previously decoded pixel, and turns each opcode into
//! one or more pixels. Every executable function here is verified against a
//! mathematical model of that pass.

pub mod cache;
pub mod decoder;
pub mod error;
pub mod header;
pub mod laws;
pub mod opcode;
pub mod pixel;
pub mod source;

pub use decoder::{decode, decode_pixels, Decoder};
pub use error::DecodeError;
pub use header::{parse_header, ColorLayout, Qoi, QoiHeader};
pub use cache::PixelCache;
pub use opcode::{apply_diff, apply_luma, low_six_bits, Opcode};
pub use pixel::{Hash64, Pixel};
pub use source::ByteSource;
