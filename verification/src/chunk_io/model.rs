//! What a deserializer does, step by step, over mathematical values.
//!
//! A deserializer reads one part of one chunk at a time.  [`step`] says what it
//! makes of the part it is at, and [`next_message`] takes steps until a message
//! is complete, bytes are missing, or a chunk makes no sense.

use crate::byte_buffers::{big_endian_24, big_endian_32, little_endian_32};
use crate::chunk_io::basic_header::{basic_header, format_of};
use crate::chunk_io::chunk_header::{ChunkHeader, ChunkHeaderFormat};
use crate::messages::Message;
use crate::time::RtmpTimestamp;
use vstd::prelude::*;

verus! {

/// The largest chunk size that peers may agree on.
pub const LARGEST_CHUNK_SIZE: usize = 2147483647;

/// The time field that announces an extended timestamp of 32 bits; smaller times
/// stand in the field itself.
pub const MAX_INITIAL_TIMESTAMP: u32 = 16777215;

/// How many chunks in a row may miss the chunk that they build on.
pub const MAX_CONSECUTIVE_ERRORS: u32 = 5;

/// The part of a chunk that is read next.
#[derive(Clone, Copy, PartialEq, Eq, Structural)]
pub enum ParseStage {
    Csid,
    InitialTimestamp,
    MessageLength,
    MessageTypeId,
    MessageStreamId,
    MessagePayload,
    ExtendedTimestamp,
}

/// What a deserializer knows.
#[verifier::ext_equal]
pub struct Deserializer {
    pub max_chunk_size: nat,
    /// The part of the current chunk that is read next.
    pub stage: ParseStage,
    /// The header format of the current chunk.
    pub format: ChunkHeaderFormat,
    /// The header of the current chunk, as far as it is known.
    pub header: ChunkHeader,
    /// The bytes that have not been read yet.
    pub buffer: Seq<u8>,
    /// For each chunk stream, the data of its message that is not complete yet.
    pub pending: Map<u32, Seq<u8>>,
    /// The last header of each chunk stream that had one.
    pub previous: Map<u32, ChunkHeader>,
    /// How many chunks in a row missed the chunk that they build on.
    pub errors: u32,
}

impl Deserializer {
    /// The invariant that every operation keeps: sizes are those of the wire, headers
    /// are kept under their own chunk streams, and data is kept of unfinished messages
    /// only, except on the chunk stream whose chunk is being read.
    pub open spec fn valid(self) -> bool {
        &&& self.max_chunk_size <= LARGEST_CHUNK_SIZE
        &&& self.header.valid()
        &&& forall|csid: u32| #[trigger] self.pending.contains_key(csid)
        &&& forall|csid: u32|
            #[trigger] self.pending[csid].len() > 0 && (self.stage is Csid || csid
                != self.header.chunk_stream_id) ==> self.unfinished(csid)
        &&& forall|csid: u32| #[trigger]
            self.previous.contains_key(csid) ==> {
                &&& self.previous[csid].valid()
                &&& self.previous[csid].chunk_stream_id == csid
            }
    }

    /// The last chunk of a chunk stream left its message without all of its data.
    pub open spec fn unfinished(self, csid: u32) -> bool {
        &&& self.previous.contains_key(csid)
        &&& self.pending[csid].len() < self.previous[csid].message_length
    }

    /// The same deserializer once more bytes have come in.
    pub open spec fn fed(self, bytes: Seq<u8>) -> Deserializer {
        Deserializer { buffer: self.buffer + bytes, ..self }
    }

    /// The data already read of the message that the current chunk belongs to.
    pub open spec fn gathered(self) -> Seq<u8> {
        self.pending[self.header.chunk_stream_id]
    }
}

/// What becomes of a deserializer that reads the part it is at.
pub enum Step {
    /// The part is not there yet.
    Starved(Deserializer),
    /// The part was read.
    Advanced(Deserializer),
    /// The part was read, and a message is complete.
    Delivered(Message, Deserializer),
    /// The chunk builds on a chunk that never came.
    Lost(u32, Deserializer),
}

/// The basic header: a full header starts from nothing, any other from the last
/// header of its chunk stream.  Where there is none, a header in which everything
/// is zero stands in for it, unless this has happened too often in a row; either of
/// the other two ends the row.
pub open spec fn basic_header_step(s: Deserializer) -> Step {
    if s.buffer.len() == 0 {
        Step::Starved(s)
    } else {
        let t = Deserializer { format: format_of(s.buffer[0]), ..s };
        match basic_header(s.buffer) {
            None => Step::Starved(t),
            Some(basic) => {
                let begun = Deserializer {
                    header: ChunkHeader::blank(basic.csid),
                    buffer: s.buffer.skip(basic.size as int),
                    stage: ParseStage::InitialTimestamp,
                    ..t
                };
                if basic.format is Full {
                    Step::Advanced(Deserializer { errors: 0, ..begun })
                } else if s.previous.contains_key(basic.csid) {
                    Step::Advanced(
                        Deserializer {
                            header: s.previous[basic.csid],
                            previous: s.previous.remove(basic.csid),
                            errors: 0,
                            ..begun
                        },
                    )
                } else {
                    let errors = one_more(s.errors);
                    if errors >= MAX_CONSECUTIVE_ERRORS {
                        Step::Lost(basic.csid, Deserializer { errors, ..t })
                    } else {
                        Step::Advanced(Deserializer { errors, ..begun })
                    }
                }
            },
        }
    }
}

/// The count after `count`, in 32 bits.
pub open spec fn one_more(count: u32) -> u32 {
    ((count + 1) % 0x1_0000_0000) as u32
}

/// The 24 bit time: absolute in a full header, otherwise the time that has passed
/// since the message before.  An empty header repeats the last one, but only where
/// it begins a message.
pub open spec fn initial_timestamp_step(s: Deserializer) -> Step {
    let read = Deserializer { stage: ParseStage::MessageLength, ..s };
    if s.format is Empty {
        if s.gathered().len() == 0 {
            Step::Advanced(
                Deserializer {
                    header: ChunkHeader {
                        timestamp: s.header.timestamp.plus(s.header.timestamp_field as int),
                        ..s.header
                    },
                    ..read
                },
            )
        } else {
            Step::Advanced(read)
        }
    } else if s.buffer.len() < 3 {
        Step::Starved(s)
    } else {
        let time = big_endian_24(s.buffer);
        Step::Advanced(
            Deserializer {
                header: ChunkHeader {
                    timestamp: if s.format is Full {
                        RtmpTimestamp { value: time }
                    } else {
                        s.header.timestamp.plus(time as int)
                    },
                    timestamp_field: time,
                    ..s.header
                },
                buffer: s.buffer.skip(3),
                ..read
            },
        )
    }
}

/// The message's length, where the header has one.
pub open spec fn message_length_step(s: Deserializer) -> Step {
    let read = Deserializer { stage: ParseStage::MessageTypeId, ..s };
    if !s.format.has_length_and_type() {
        Step::Advanced(read)
    } else if s.buffer.len() < 3 {
        Step::Starved(s)
    } else {
        Step::Advanced(
            Deserializer {
                header: ChunkHeader { message_length: big_endian_24(s.buffer), ..s.header },
                buffer: s.buffer.skip(3),
                ..read
            },
        )
    }
}

/// The message's type, where the header has one.
pub open spec fn message_type_id_step(s: Deserializer) -> Step {
    let read = Deserializer { stage: ParseStage::MessageStreamId, ..s };
    if !s.format.has_length_and_type() {
        Step::Advanced(read)
    } else if s.buffer.len() < 1 {
        Step::Starved(s)
    } else {
        Step::Advanced(
            Deserializer {
                header: ChunkHeader { message_type_id: s.buffer[0], ..s.header },
                buffer: s.buffer.skip(1),
                ..read
            },
        )
    }
}

/// The message stream, where the header has one.
pub open spec fn message_stream_id_step(s: Deserializer) -> Step {
    let read = Deserializer { stage: ParseStage::ExtendedTimestamp, ..s };
    if !(s.format is Full) {
        Step::Advanced(read)
    } else if s.buffer.len() < 4 {
        Step::Starved(s)
    } else {
        Step::Advanced(
            Deserializer {
                header: ChunkHeader { message_stream_id: little_endian_32(s.buffer), ..s.header },
                buffer: s.buffer.skip(4),
                ..read
            },
        )
    }
}

/// The time in 32 bits, where 24 were not enough.  In a chunk that goes on with a
/// message it is only skipped.  Of a time difference, the 24 bit time has been
/// counted already.
pub open spec fn extended_timestamp_step(s: Deserializer) -> Step {
    let read = Deserializer { stage: ParseStage::MessagePayload, ..s };
    if s.header.timestamp_field < MAX_INITIAL_TIMESTAMP {
        Step::Advanced(read)
    } else if s.buffer.len() < 4 {
        Step::Starved(s)
    } else {
        let time = big_endian_32(s.buffer);
        Step::Advanced(
            Deserializer {
                header: ChunkHeader {
                    timestamp: if s.format is Full {
                        RtmpTimestamp { value: time }
                    } else if s.gathered().len() == 0 {
                        s.header.timestamp.plus(time - MAX_INITIAL_TIMESTAMP)
                    } else {
                        s.header.timestamp
                    },
                    ..s.header
                },
                buffer: s.buffer.skip(4),
                ..read
            },
        )
    }
}

/// How many bytes of data a chunk carries: what its message still lacks, but no
/// more than the maximum chunk size.
pub open spec fn chunk_data_size(gathered: nat, message_length: nat, max_chunk_size: nat) -> nat {
    if gathered >= message_length {
        0
    } else if message_length - gathered <= max_chunk_size {
        (message_length - gathered) as nat
    } else {
        max_chunk_size
    }
}

/// The data of the message so far, given what was gathered before and what the
/// chunk brings.  Data that exceeds the message's length is of no use.
pub open spec fn joined(gathered: Seq<u8>, message_length: nat, brought: Seq<u8>) -> Seq<u8> {
    if gathered.len() > message_length {
        brought
    } else {
        gathered + brought
    }
}

/// The chunk's data, which ends the chunk and may complete its message.
pub open spec fn message_payload_step(s: Deserializer) -> Step {
    let csid = s.header.chunk_stream_id;
    let length = s.header.message_length as nat;
    let size = chunk_data_size(s.gathered().len(), length, s.max_chunk_size);
    if s.buffer.len() < size {
        Step::Starved(s)
    } else {
        let data = joined(s.gathered(), length, s.buffer.take(size as int));
        let ended = Deserializer {
            stage: ParseStage::Csid,
            header: ChunkHeader::blank(0),
            buffer: s.buffer.skip(size as int),
            previous: s.previous.insert(csid, s.header),
            ..s
        };
        if data.len() == length {
            Step::Delivered(
                Message {
                    timestamp: s.header.timestamp,
                    type_id: s.header.message_type_id,
                    message_stream_id: s.header.message_stream_id,
                    data,
                },
                Deserializer { pending: s.pending.insert(csid, Seq::empty()), ..ended },
            )
        } else {
            Step::Advanced(Deserializer { pending: s.pending.insert(csid, data), ..ended })
        }
    }
}

/// Reads the part that the deserializer is at.
pub open spec fn step(s: Deserializer) -> Step {
    match s.stage {
        ParseStage::Csid => basic_header_step(s),
        ParseStage::InitialTimestamp => initial_timestamp_step(s),
        ParseStage::MessageLength => message_length_step(s),
        ParseStage::MessageTypeId => message_type_id_step(s),
        ParseStage::MessageStreamId => message_stream_id_step(s),
        ParseStage::ExtendedTimestamp => extended_timestamp_step(s),
        ParseStage::MessagePayload => message_payload_step(s),
    }
}

/// How many parts of the current chunk are still to be read.
pub open spec fn parts_left(stage: ParseStage) -> nat {
    match stage {
        ParseStage::Csid => 0,
        ParseStage::InitialTimestamp => 6,
        ParseStage::MessageLength => 5,
        ParseStage::MessageTypeId => 4,
        ParseStage::MessageStreamId => 3,
        ParseStage::ExtendedTimestamp => 2,
        ParseStage::MessagePayload => 1,
    }
}

/// What a deserializer has to say about the bytes it was given.
#[verifier::ext_equal]
pub enum Outcome {
    /// There is no complete message in them.
    Waiting,
    /// This message is complete.
    Complete(Message),
    /// A chunk on this chunk stream builds on a chunk that never came.
    Lost(u32),
}

/// Steps until there is something to say, and what is known then.
pub open spec fn next_message(s: Deserializer) -> (Outcome, Deserializer)
    decreases s.buffer.len(), parts_left(s.stage),
{
    match step(s) {
        Step::Starved(t) => (Outcome::Waiting, t),
        Step::Delivered(message, t) => (Outcome::Complete(message), t),
        Step::Lost(csid, t) => (Outcome::Lost(csid), t),
        Step::Advanced(t) => next_message(t),
    }
}

} // verus!
