//! Reading, editing and writing the chunk stream of a PNG file.
//!
//! A file is the eight signature bytes followed by chunk records. Each record
//! is a big-endian length, a four-letter type code, the payload, and a CRC-32
//! over type code and payload. [`chunk_type::ChunkType`] is the type code,
//! [`chunk::Chunk`] one record, and [`png::Png`] the ordered list of records.
//! Every function is stated over a mathematical view of these values and
//! proved against it.

pub mod byte_order;
pub mod checksum;
pub mod chunk;
pub mod chunk_type;
pub mod png;
pub mod text;
