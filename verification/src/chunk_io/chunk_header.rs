//! Chunk headers.

use crate::time::RtmpTimestamp;
use vstd::prelude::*;

verus! {

/// How much of its header a chunk spells out.  What it leaves out is taken over
/// from the chunk that came before it on the same chunk stream.
#[derive(Clone, Copy, Debug, PartialEq, Eq, Structural)]
pub enum ChunkHeaderFormat {
    /// Everything, with an absolute timestamp.
    Full,
    /// Everything but the message stream, with a time difference.
    TimeDeltaWithoutMessageStreamId,
    /// A time difference only.
    TimeDeltaOnly,
    /// Nothing.
    Empty,
}

impl ChunkHeaderFormat {
    /// Headers of this format hold the message's length and type.
    pub open spec fn has_length_and_type(self) -> bool {
        self is Full || self is TimeDeltaWithoutMessageStreamId
    }
}

/// The header of a chunk, with what the chunk left out filled in.
#[derive(Clone, Copy, Debug, PartialEq, Eq, Structural)]
pub struct ChunkHeader {
    pub chunk_stream_id: u32,
    /// The time of the message that the chunk belongs to.
    pub timestamp: RtmpTimestamp,
    /// The 24 bit time that was last spelled out: a timestamp or a difference.
    pub timestamp_field: u32,
    pub message_length: u32,
    pub message_type_id: u8,
    pub message_stream_id: u32,
}

impl ChunkHeader {
    /// A header on a chunk stream about which nothing else is known.
    pub open spec fn blank(chunk_stream_id: u32) -> ChunkHeader {
        ChunkHeader {
            chunk_stream_id,
            timestamp: RtmpTimestamp { value: 0 },
            timestamp_field: 0,
            message_length: 0,
            message_type_id: 0,
            message_stream_id: 0,
        }
    }

    /// The length and the time field are numbers of 24 bits, as on the wire.
    pub open spec fn valid(self) -> bool {
        &&& self.timestamp_field < 0x100_0000
        &&& self.message_length < 0x100_0000
    }

    /// A header in which everything is zero.
    pub fn new() -> (header: ChunkHeader)
        ensures
            header == ChunkHeader::blank(0),
            header.chunk_stream_id == 0,
            header.timestamp.value == 0,
            header.timestamp_field == 0,
            header.message_length == 0,
            header.message_type_id == 0,
            header.message_stream_id == 0,
    {
        ChunkHeader {
            chunk_stream_id: 0,
            timestamp: RtmpTimestamp::new(0),
            timestamp_field: 0,
            message_length: 0,
            message_type_id: 0,
            message_stream_id: 0,
        }
    }
}

} // verus!
