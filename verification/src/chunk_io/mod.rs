//! Reading RTMP chunks.

mod basic_header;
pub mod byte_laws;
mod chunk_header;
pub mod connection_laws;
mod deserialization_errors;
mod deserializer;
pub mod laws;
pub mod model;
pub mod reading_laws;
pub mod wire;
pub mod wire_laws;

pub use self::basic_header::{
    basic_header, format_of, get_csid, get_format, BasicHeader, ParsedValue,
};
pub use self::chunk_header::{ChunkHeader, ChunkHeaderFormat};
pub use self::deserialization_errors::ChunkDeserializationError;
pub use self::deserializer::{reports, ChunkDeserializer};
