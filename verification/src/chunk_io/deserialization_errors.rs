//! What can go wrong while chunks are read.

use vstd::prelude::*;

verus! {

/// Why a [`ChunkDeserializer`](crate::chunk_io::ChunkDeserializer) gave up.
#[derive(Debug)]
pub enum ChunkDeserializationError {
    /// A chunk leaves out part of its header, but no chunk came before it on its
    /// chunk stream.
    NoPreviousChunkOnStream { csid: u32 },
    /// A maximum chunk size was asked for that does not fit in 31 bits.
    InvalidMaxChunkSize { chunk_size: usize },
    /// A number could not be read.
    Io(std::io::Error),
}

} // verus!
