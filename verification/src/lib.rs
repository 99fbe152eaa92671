//! A codec for PNG-style chunk containers.
//!
//! A file is an eight-byte signature followed by chunks. Each chunk is a
//! big-endian length, a four-letter type, a payload and a CRC-32 over type and
//! payload. The codec works on byte buffers in memory and performs no I/O.
//!
//! - [`chunk_type`]: the four-letter type and the flags in its letters' case.
//! - [`chunk`]: one chunk, its encoding and decoding.
//! - [`png`]: the container, an ordered sequence of chunks.
//! - [`commands`]: hiding a message in a file, finding it, removing it, and
//!   listing a file's chunks.
//! - [`be`], [`checksum`], [`text`]: big-endian numbers, the CRC-32, and bytes
//!   read as text.

pub mod be;
pub mod checksum;
pub mod chunk;
pub mod chunk_type;
pub mod commands;
pub mod png;
pub mod text;

pub use crate::chunk::{Chunk, ChunkError, ChunkView};
pub use crate::chunk_type::{ChunkType, ChunkTypeError};
pub use crate::png::{Png, PngError};
