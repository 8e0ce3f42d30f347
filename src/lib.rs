//! A codec for the PNG chunk stream: a fixed eight-byte signature followed by
//! length-prefixed, typed and CRC-checked records ("chunks").
//!
//! The four-letter chunk type with its case-encoded property bits lives in
//! [`chunk_type`], the single-record codec in [`chunk`], the container codec in
//! [`png`], and hiding a text message in a chunk in [`message`]. Every
//! function is verified against its contract.

pub mod bytes;
pub mod checksum;
pub mod chunk;
pub mod chunk_type;
pub mod error;
pub mod message;
pub mod png;
pub mod text;

pub use chunk::{Chunk, ChunkView};
pub use chunk_type::ChunkType;
pub use error::Error;
pub use png::Png;
