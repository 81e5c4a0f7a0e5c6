//! A verified reader of RTMP chunk streams.
//!
//! RTMP peers cut each message into chunks and may interleave the chunks of
//! several streams on one connection.  [`chunk_io::ChunkDeserializer`] turns
//! the bytes of such a connection back into [`messages::MessagePayload`]s.

pub mod byte_buffers;
pub mod chunk_io;
pub mod messages;
pub mod sessions;
pub mod time;
