//! What chunks look like on the wire, and what a chunk does to its chunk stream.
//!
//! A connection carries any number of chunk streams.  Each has a state of its own,
//! a [`ChunkStream`], which only its own chunks change.

use crate::chunk_io::chunk_header::{ChunkHeader, ChunkHeaderFormat};
use crate::time::RtmpTimestamp;
use vstd::prelude::*;

verus! {

use crate::chunk_io::model::{
    chunk_data_size, joined, one_more, Deserializer, MAX_INITIAL_TIMESTAMP,
};
use crate::messages::Message;

/// How many bytes a basic header takes to name its chunk stream.
pub enum BasicHeaderForm {
    OneByte,
    TwoBytes,
    ThreeBytes,
}

/// The chunk streams that a basic header of a form can name.
pub open spec fn can_name(form: BasicHeaderForm, csid: u32) -> bool {
    match form {
        BasicHeaderForm::OneByte => 2 <= csid < 64,
        BasicHeaderForm::TwoBytes => 64 <= csid < 64 + 0x100,
        BasicHeaderForm::ThreeBytes => 64 <= csid < 64 + 0x1_0000,
    }
}

/// The number by which a basic header gives the format of the header behind it.
pub open spec fn format_number(format: ChunkHeaderFormat) -> int {
    match format {
        ChunkHeaderFormat::Full => 0,
        ChunkHeaderFormat::TimeDeltaWithoutMessageStreamId => 1,
        ChunkHeaderFormat::TimeDeltaOnly => 2,
        ChunkHeaderFormat::Empty => 3,
    }
}

/// A basic header.
pub open spec fn basic_header_bytes(
    form: BasicHeaderForm,
    format: ChunkHeaderFormat,
    csid: u32,
) -> Seq<u8> {
    let high = format_number(format) * 64;
    match form {
        BasicHeaderForm::OneByte => seq![(high + csid) as u8],
        BasicHeaderForm::TwoBytes => seq![high as u8, (csid - 64) as u8],
        BasicHeaderForm::ThreeBytes => seq![
            (high + 1) as u8,
            ((csid - 64) % 256) as u8,
            ((csid - 64) / 256) as u8,
        ],
    }
}

/// A number of 24 bits, most significant byte first.
pub open spec fn big_endian_24_bytes(number: u32) -> Seq<u8> {
    seq![(number / 0x1_0000) as u8, (number / 0x100 % 0x100) as u8, (number % 0x100) as u8]
}

/// A number of 32 bits, most significant byte first.
pub open spec fn big_endian_32_bytes(number: u32) -> Seq<u8> {
    seq![
        (number / 0x100_0000) as u8,
        (number / 0x1_0000 % 0x100) as u8,
        (number / 0x100 % 0x100) as u8,
        (number % 0x100) as u8,
    ]
}

/// A number of 32 bits, least significant byte first.
pub open spec fn little_endian_32_bytes(number: u32) -> Seq<u8> {
    seq![
        (number % 0x100) as u8,
        (number / 0x100 % 0x100) as u8,
        (number / 0x1_0000 % 0x100) as u8,
        (number / 0x100_0000) as u8,
    ]
}

/// A chunk.  Its format decides which of its fields are written; the others do
/// not matter.
pub struct Chunk {
    pub form: BasicHeaderForm,
    pub format: ChunkHeaderFormat,
    pub csid: u32,
    /// A timestamp in a full header, a time difference in any other.
    pub time: u32,
    /// The time is written in 32 bits even if 24 would do.
    pub wide: bool,
    pub message_length: u32,
    pub message_type_id: u8,
    pub message_stream_id: u32,
    pub data: Seq<u8>,
}

/// What is known about a chunk stream between two chunks.
#[verifier::ext_equal]
pub struct ChunkStream {
    /// The header of its last chunk.
    pub last: Option<ChunkHeader>,
    /// The data of its message that is not complete yet.
    pub gathered: Seq<u8>,
}

impl Chunk {
    /// Whether the header spells the time out in 32 bits: 24 are not enough, or are
    /// not used.
    pub open spec fn is_wide(self) -> bool {
        self.wide || self.time >= MAX_INITIAL_TIMESTAMP
    }

    /// The 24 bits that are written of the time.
    pub open spec fn time_field(self) -> u32 {
        if self.is_wide() {
            MAX_INITIAL_TIMESTAMP
        } else {
            self.time
        }
    }

    /// The chunk needs a predecessor, but its chunk stream has had no chunk yet.
    pub open spec fn lacks_predecessor(self, stream: ChunkStream) -> bool {
        !(self.format is Full) && stream.last is None
    }

    /// How many chunks in a row lacked a predecessor, up to and with this chunk.
    pub open spec fn row(self, stream: ChunkStream, before: u32) -> u32 {
        if self.lacks_predecessor(stream) {
            one_more(before)
        } else {
            0
        }
    }

    /// What the chunk builds on; zeros stand in for a predecessor that it lacks.
    pub open spec fn base(self, stream: ChunkStream) -> ChunkHeader {
        if self.format is Full || stream.last is None {
            ChunkHeader::blank(self.csid)
        } else {
            stream.last->0
        }
    }

    /// Whether the time is written in 32 bits too.
    pub open spec fn has_extended_time(self, stream: ChunkStream) -> bool {
        if self.format is Empty {
            self.base(stream).timestamp_field >= MAX_INITIAL_TIMESTAMP
        } else {
            self.is_wide()
        }
    }

    /// The time, in 24 bits.
    pub open spec fn time_bytes(self) -> Seq<u8> {
        if self.format is Empty {
            Seq::empty()
        } else {
            big_endian_24_bytes(self.time_field())
        }
    }

    /// The message's length.
    pub open spec fn length_bytes(self) -> Seq<u8> {
        if self.format.has_length_and_type() {
            big_endian_24_bytes(self.message_length)
        } else {
            Seq::empty()
        }
    }

    /// The message's type.
    pub open spec fn type_bytes(self) -> Seq<u8> {
        if self.format.has_length_and_type() {
            seq![self.message_type_id]
        } else {
            Seq::empty()
        }
    }

    /// The message stream.
    pub open spec fn stream_bytes(self) -> Seq<u8> {
        if self.format is Full {
            little_endian_32_bytes(self.message_stream_id)
        } else {
            Seq::empty()
        }
    }

    /// The time, in 32 bits.
    pub open spec fn extended_time_bytes(self, stream: ChunkStream) -> Seq<u8> {
        if self.has_extended_time(stream) {
            big_endian_32_bytes(self.time)
        } else {
            Seq::empty()
        }
    }

    /// The chunk on the wire.
    pub open spec fn bytes(self, stream: ChunkStream) -> Seq<u8> {
        basic_header_bytes(self.form, self.format, self.csid) + self.time_bytes()
            + self.length_bytes() + self.type_bytes() + self.stream_bytes()
            + self.extended_time_bytes(stream) + self.data
    }

    /// The time of the chunk's message.  A time difference counts where a message
    /// begins; an empty header then repeats the last one.  Where a message goes on,
    /// an empty header leaves the time as it is, and a difference that is spelled
    /// out counts with the 24 bits that every header has.
    pub open spec fn message_time(self, stream: ChunkStream) -> RtmpTimestamp {
        let before = self.base(stream).timestamp;
        let begins = stream.gathered.len() == 0;
        match self.format {
            ChunkHeaderFormat::Full => RtmpTimestamp { value: self.time },
            ChunkHeaderFormat::Empty => if !begins {
                before
            } else if self.has_extended_time(stream) {
                before.plus(self.time as int)
            } else {
                before.plus(self.base(stream).timestamp_field as int)
            },
            _ => if begins {
                before.plus(self.time as int)
            } else {
                before.plus(self.time_field() as int)
            },
        }
    }

    /// The chunk's header, with what it left out taken over from its predecessor.
    pub open spec fn header(self, stream: ChunkStream) -> ChunkHeader {
        let base = self.base(stream);
        ChunkHeader {
            chunk_stream_id: self.csid,
            timestamp: self.message_time(stream),
            timestamp_field: if self.format is Empty {
                base.timestamp_field
            } else {
                self.time_field()
            },
            message_length: if self.format.has_length_and_type() {
                self.message_length
            } else {
                base.message_length
            },
            message_type_id: if self.format.has_length_and_type() {
                self.message_type_id
            } else {
                base.message_type_id
            },
            message_stream_id: if self.format is Full {
                self.message_stream_id
            } else {
                base.message_stream_id
            },
        }
    }

    /// The chunk may come next on its chunk stream: it can be written, and it carries
    /// as much data as it should.
    pub open spec fn fits(self, stream: ChunkStream, max_chunk_size: nat) -> bool {
        &&& can_name(self.form, self.csid)
        &&& self.message_length < 0x100_0000
        &&& self.data.len() == chunk_data_size(
            stream.gathered.len(),
            self.header(stream).message_length as nat,
            max_chunk_size,
        )
    }

    /// The data of the chunk's message, up to and with this chunk.
    pub open spec fn message_data(self, stream: ChunkStream) -> Seq<u8> {
        joined(stream.gathered, self.header(stream).message_length as nat, self.data)
    }

    /// Whether the chunk completes its message.
    pub open spec fn completes(self, stream: ChunkStream) -> bool {
        self.message_data(stream).len() == self.header(stream).message_length
    }

    /// The message that the chunk completes.
    pub open spec fn message(self, stream: ChunkStream) -> Message {
        Message {
            timestamp: self.header(stream).timestamp,
            type_id: self.header(stream).message_type_id,
            message_stream_id: self.header(stream).message_stream_id,
            data: self.message_data(stream),
        }
    }

    /// The chunk stream after the chunk.
    pub open spec fn passed(self, stream: ChunkStream) -> ChunkStream {
        ChunkStream {
            last: Some(self.header(stream)),
            gathered: if self.completes(stream) {
                Seq::empty()
            } else {
                self.message_data(stream)
            },
        }
    }
}

/// What a deserializer knows about a chunk stream.
pub open spec fn stream_of(s: Deserializer, csid: u32) -> ChunkStream {
    ChunkStream {
        last: if s.previous.contains_key(csid) {
            Some(s.previous[csid])
        } else {
            None
        },
        gathered: s.pending[csid],
    }
}

/// A deserializer between two chunks, after it has read one and has `rest` to read.
pub open spec fn received(s: Deserializer, chunk: Chunk, rest: Seq<u8>) -> Deserializer {
    let stream = chunk.passed(stream_of(s, chunk.csid));
    Deserializer {
        format: chunk.format,
        header: ChunkHeader::blank(0),
        buffer: rest,
        pending: s.pending.insert(chunk.csid, stream.gathered),
        previous: s.previous.insert(chunk.csid, stream.last->0),
        errors: chunk.row(stream_of(s, chunk.csid), s.errors),
        ..s
    }
}

} // verus!
