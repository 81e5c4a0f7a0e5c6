//! What the bytes of a chunk mean, one by one.

use crate::chunk_io::chunk_header::ChunkHeaderFormat;
use vstd::prelude::*;

verus! {

use crate::chunk_io::basic_header::basic_header;
use crate::chunk_io::laws::law_bytes_may_come_later;
use crate::chunk_io::model::{next_message, Deserializer, Outcome, MAX_CONSECUTIVE_ERRORS};
use crate::chunk_io::wire::{basic_header_bytes, received, stream_of, BasicHeaderForm, Chunk};
use crate::chunk_io::wire_laws::{law_basic_headers_are_read_back, law_chunks_are_read_back};

/// The form of a basic header, by its size.
spec fn form_of(head: Seq<u8>) -> BasicHeaderForm {
    if head.len() == 1 {
        BasicHeaderForm::OneByte
    } else if head.len() == 2 {
        BasicHeaderForm::TwoBytes
    } else {
        BasicHeaderForm::ThreeBytes
    }
}

/// A chunk of type 0, byte by byte: the time, in 24 bits or in 32 behind all ones, the
/// length, the type and the message stream, least significant byte first.  Its message
/// has just this time, type and message stream, and the data that came.
pub proof fn law_type_0_chunks(
    s: Deserializer,
    head: Seq<u8>,
    csid: u32,
    field: u32,
    extended: Seq<u8>,
    time: u32,
    length: u32,
    type_id: u8,
    stream_id: u32,
    data: Seq<u8>,
    rest: Seq<u8>,
) -> (t: Deserializer)
    requires
        s.valid(),
        s.stage is Csid,
        ({
            ||| 2 <= csid < 64 && head == seq![csid as u8]
            ||| 64 <= csid < 64 + 0x100 && head == seq![0u8, (csid - 64) as u8]
            ||| 64 <= csid < 64 + 0x1_0000 && head == seq![
                1u8,
                ((csid - 64) % 0x100) as u8,
                ((csid - 64) / 0x100) as u8,
            ]
        }),
        ({
            ||| field == time && field < 0xff_ffff && extended.len() == 0
            ||| field == 0xff_ffff && extended == seq![
                (time / 0x100_0000) as u8,
                (time / 0x1_0000 % 0x100) as u8,
                (time / 0x100 % 0x100) as u8,
                (time % 0x100) as u8,
            ]
        }),
        length < 0x100_0000,
        data.len() == if s.pending[csid].len() >= length {
            0
        } else if length - s.pending[csid].len() <= s.max_chunk_size {
            length - s.pending[csid].len()
        } else {
            s.max_chunk_size as int
        },
        s.buffer == head + seq![
            (field / 0x1_0000) as u8,
            (field / 0x100 % 0x100) as u8,
            (field % 0x100) as u8,
            (length / 0x1_0000) as u8,
            (length / 0x100 % 0x100) as u8,
            (length % 0x100) as u8,
            type_id,
            (stream_id % 0x100) as u8,
            (stream_id / 0x100 % 0x100) as u8,
            (stream_id / 0x1_0000 % 0x100) as u8,
            (stream_id / 0x100_0000) as u8,
        ] + extended + data + rest,
    ensures
        ({
            let gathered = s.pending[csid];
            let message_data = if gathered.len() > length {
                data
            } else {
                gathered + data
            };
            let is_complete = message_data.len() == length;
            &&& t.valid()
            &&& t.stage is Csid
            &&& t.buffer == rest
            &&& t.max_chunk_size == s.max_chunk_size
            &&& t.errors == 0
            &&& t.pending == s.pending.insert(
                csid,
                if is_complete {
                    Seq::empty()
                } else {
                    message_data
                },
            )
            &&& t.previous == s.previous.insert(csid, t.previous[csid])
            &&& t.previous[csid].chunk_stream_id == csid
            &&& t.previous[csid].timestamp.value == time
            &&& t.previous[csid].timestamp_field == field
            &&& t.previous[csid].message_length == length
            &&& t.previous[csid].message_type_id == type_id
            &&& t.previous[csid].message_stream_id == stream_id
            &&& !is_complete ==> next_message(s) == next_message(t)
            &&& is_complete ==> {
                &&& next_message(s).1 == t
                &&& next_message(s).0 matches Outcome::Complete(message)
                &&& message.timestamp.value == time
                &&& message.type_id == type_id
                &&& message.message_stream_id == stream_id
                &&& message.data == message_data
            }
        }),
{
    let chunk = Chunk {
        form: form_of(head),
        format: ChunkHeaderFormat::Full,
        csid,
        time,
        wide: extended.len() > 0,
        message_length: length,
        message_type_id: type_id,
        message_stream_id: stream_id,
        data,
    };
    let stream = stream_of(s, csid);
    assert(basic_header_bytes(chunk.form, chunk.format, csid) =~= head);
    assert(s.buffer =~= chunk.bytes(stream) + rest);
    law_chunks_are_read_back(s, chunk, rest);
    received(s, chunk, rest)
}

/// A chunk of type 1, byte by byte: the time that has passed, the length and the type.
/// Its message comes that much later than the one before on its chunk stream, and is
/// on the same message stream.  In the middle of a message, 24 bits of the time count.
pub proof fn law_type_1_chunks(
    s: Deserializer,
    head: Seq<u8>,
    csid: u32,
    field: u32,
    extended: Seq<u8>,
    time: u32,
    length: u32,
    type_id: u8,
    data: Seq<u8>,
    rest: Seq<u8>,
) -> (t: Deserializer)
    requires
        s.valid(),
        s.stage is Csid,
        ({
            ||| 2 <= csid < 64 && head == seq![(64 + csid) as u8]
            ||| 64 <= csid < 64 + 0x100 && head == seq![64u8, (csid - 64) as u8]
            ||| 64 <= csid < 64 + 0x1_0000 && head == seq![
                65u8,
                ((csid - 64) % 0x100) as u8,
                ((csid - 64) / 0x100) as u8,
            ]
        }),
        s.previous.contains_key(csid) || s.errors < 4 || s.errors == u32::MAX,
        ({
            ||| field == time && field < 0xff_ffff && extended.len() == 0
            ||| field == 0xff_ffff && extended == seq![
                (time / 0x100_0000) as u8,
                (time / 0x1_0000 % 0x100) as u8,
                (time / 0x100 % 0x100) as u8,
                (time % 0x100) as u8,
            ]
        }),
        length < 0x100_0000,
        data.len() == if s.pending[csid].len() >= length {
            0
        } else if length - s.pending[csid].len() <= s.max_chunk_size {
            length - s.pending[csid].len()
        } else {
            s.max_chunk_size as int
        },
        s.buffer == head + seq![
            (field / 0x1_0000) as u8,
            (field / 0x100 % 0x100) as u8,
            (field % 0x100) as u8,
            (length / 0x1_0000) as u8,
            (length / 0x100 % 0x100) as u8,
            (length % 0x100) as u8,
            type_id,
        ] + extended + data + rest,
    ensures
        ({
            let last_time: u32 = if s.previous.contains_key(csid) {
                s.previous[csid].timestamp.value
            } else {
                0
            };
            let stream_id: u32 = if s.previous.contains_key(csid) {
                s.previous[csid].message_stream_id
            } else {
                0
            };
            let message_time = if s.pending[csid].len() == 0 {
                (last_time + time) % 0x1_0000_0000
            } else {
                (last_time + field) % 0x1_0000_0000
            };
            let gathered = s.pending[csid];
            let message_data = if gathered.len() > length {
                data
            } else {
                gathered + data
            };
            let is_complete = message_data.len() == length;
            &&& t.valid()
            &&& t.stage is Csid
            &&& t.buffer == rest
            &&& t.max_chunk_size == s.max_chunk_size
            &&& t.errors == if s.previous.contains_key(csid) || s.errors == u32::MAX {
                0
            } else {
                s.errors + 1
            }
            &&& t.pending == s.pending.insert(
                csid,
                if is_complete {
                    Seq::empty()
                } else {
                    message_data
                },
            )
            &&& t.previous == s.previous.insert(csid, t.previous[csid])
            &&& t.previous[csid].chunk_stream_id == csid
            &&& t.previous[csid].timestamp.value == message_time
            &&& t.previous[csid].timestamp_field == field
            &&& t.previous[csid].message_length == length
            &&& t.previous[csid].message_type_id == type_id
            &&& t.previous[csid].message_stream_id == stream_id
            &&& !is_complete ==> next_message(s) == next_message(t)
            &&& is_complete ==> {
                &&& next_message(s).1 == t
                &&& next_message(s).0 matches Outcome::Complete(message)
                &&& message.timestamp.value == message_time
                &&& message.type_id == type_id
                &&& message.message_stream_id == stream_id
                &&& message.data == message_data
            }
        }),
{
    let chunk = Chunk {
        form: form_of(head),
        format: ChunkHeaderFormat::TimeDeltaWithoutMessageStreamId,
        csid,
        time,
        wide: extended.len() > 0,
        message_length: length,
        message_type_id: type_id,
        message_stream_id: 0,
        data,
    };
    let stream = stream_of(s, csid);
    assert(basic_header_bytes(chunk.form, chunk.format, csid) =~= head);
    assert(s.buffer =~= chunk.bytes(stream) + rest);
    law_chunks_are_read_back(s, chunk, rest);
    received(s, chunk, rest)
}

/// A chunk of type 2, byte by byte: the time that has passed.  Its message comes that
/// much later than the one before on its chunk stream, and is as long, of the same type
/// and on the same message stream.
pub proof fn law_type_2_chunks(
    s: Deserializer,
    head: Seq<u8>,
    csid: u32,
    field: u32,
    extended: Seq<u8>,
    time: u32,
    data: Seq<u8>,
    rest: Seq<u8>,
) -> (t: Deserializer)
    requires
        s.valid(),
        s.stage is Csid,
        ({
            ||| 2 <= csid < 64 && head == seq![(128 + csid) as u8]
            ||| 64 <= csid < 64 + 0x100 && head == seq![128u8, (csid - 64) as u8]
            ||| 64 <= csid < 64 + 0x1_0000 && head == seq![
                129u8,
                ((csid - 64) % 0x100) as u8,
                ((csid - 64) / 0x100) as u8,
            ]
        }),
        s.previous.contains_key(csid) || s.errors < 4 || s.errors == u32::MAX,
        ({
            ||| field == time && field < 0xff_ffff && extended.len() == 0
            ||| field == 0xff_ffff && extended == seq![
                (time / 0x100_0000) as u8,
                (time / 0x1_0000 % 0x100) as u8,
                (time / 0x100 % 0x100) as u8,
                (time % 0x100) as u8,
            ]
        }),
        data.len() == ({
            let length: u32 = if s.previous.contains_key(csid) {
                s.previous[csid].message_length
            } else {
                0
            };
            if s.pending[csid].len() >= length {
                0
            } else if length - s.pending[csid].len() <= s.max_chunk_size {
                length - s.pending[csid].len()
            } else {
                s.max_chunk_size as int
            }
        }),
        s.buffer == head + seq![
            (field / 0x1_0000) as u8,
            (field / 0x100 % 0x100) as u8,
            (field % 0x100) as u8,
        ] + extended + data + rest,
    ensures
        ({
            let last_time: u32 = if s.previous.contains_key(csid) {
                s.previous[csid].timestamp.value
            } else {
                0
            };
            let length: u32 = if s.previous.contains_key(csid) {
                s.previous[csid].message_length
            } else {
                0
            };
            let type_id: u8 = if s.previous.contains_key(csid) {
                s.previous[csid].message_type_id
            } else {
                0
            };
            let stream_id: u32 = if s.previous.contains_key(csid) {
                s.previous[csid].message_stream_id
            } else {
                0
            };
            let message_time = if s.pending[csid].len() == 0 {
                (last_time + time) % 0x1_0000_0000
            } else {
                (last_time + field) % 0x1_0000_0000
            };
            let gathered = s.pending[csid];
            let message_data = if gathered.len() > length {
                data
            } else {
                gathered + data
            };
            let is_complete = message_data.len() == length;
            &&& t.valid()
            &&& t.stage is Csid
            &&& t.buffer == rest
            &&& t.max_chunk_size == s.max_chunk_size
            &&& t.errors == if s.previous.contains_key(csid) || s.errors == u32::MAX {
                0
            } else {
                s.errors + 1
            }
            &&& t.pending == s.pending.insert(
                csid,
                if is_complete {
                    Seq::empty()
                } else {
                    message_data
                },
            )
            &&& t.previous == s.previous.insert(csid, t.previous[csid])
            &&& t.previous[csid].chunk_stream_id == csid
            &&& t.previous[csid].timestamp.value == message_time
            &&& t.previous[csid].timestamp_field == field
            &&& t.previous[csid].message_length == length
            &&& t.previous[csid].message_type_id == type_id
            &&& t.previous[csid].message_stream_id == stream_id
            &&& !is_complete ==> next_message(s) == next_message(t)
            &&& is_complete ==> {
                &&& next_message(s).1 == t
                &&& next_message(s).0 matches Outcome::Complete(message)
                &&& message.timestamp.value == message_time
                &&& message.type_id == type_id
                &&& message.message_stream_id == stream_id
                &&& message.data == message_data
            }
        }),
{
    let chunk = Chunk {
        form: form_of(head),
        format: ChunkHeaderFormat::TimeDeltaOnly,
        csid,
        time,
        wide: extended.len() > 0,
        message_length: 0,
        message_type_id: 0,
        message_stream_id: 0,
        data,
    };
    let stream = stream_of(s, csid);
    assert(basic_header_bytes(chunk.form, chunk.format, csid) =~= head);
    assert(s.buffer =~= chunk.bytes(stream) + rest);
    law_chunks_are_read_back(s, chunk, rest);
    received(s, chunk, rest)
}

/// A chunk of type 3, byte by byte, which leaves out all but the 32 bit time that the
/// header before it had, if it had one.  A message that begins with it comes as much
/// later again; a message that goes on with it keeps its time.
pub proof fn law_type_3_chunks(
    s: Deserializer,
    head: Seq<u8>,
    csid: u32,
    extended: Seq<u8>,
    time: u32,
    data: Seq<u8>,
    rest: Seq<u8>,
) -> (t: Deserializer)
    requires
        s.valid(),
        s.stage is Csid,
        ({
            ||| 2 <= csid < 64 && head == seq![(192 + csid) as u8]
            ||| 64 <= csid < 64 + 0x100 && head == seq![192u8, (csid - 64) as u8]
            ||| 64 <= csid < 64 + 0x1_0000 && head == seq![
                193u8,
                ((csid - 64) % 0x100) as u8,
                ((csid - 64) / 0x100) as u8,
            ]
        }),
        s.previous.contains_key(csid) || s.errors < 4 || s.errors == u32::MAX,
        if s.previous.contains_key(csid) && s.previous[csid].timestamp_field == 0xff_ffff {
            extended == seq![
                (time / 0x100_0000) as u8,
                (time / 0x1_0000 % 0x100) as u8,
                (time / 0x100 % 0x100) as u8,
                (time % 0x100) as u8,
            ]
        } else {
            extended.len() == 0
        },
        data.len() == ({
            let length: u32 = if s.previous.contains_key(csid) {
                s.previous[csid].message_length
            } else {
                0
            };
            if s.pending[csid].len() >= length {
                0
            } else if length - s.pending[csid].len() <= s.max_chunk_size {
                length - s.pending[csid].len()
            } else {
                s.max_chunk_size as int
            }
        }),
        s.buffer == head + extended + data + rest,
    ensures
        ({
            let last_time: u32 = if s.previous.contains_key(csid) {
                s.previous[csid].timestamp.value
            } else {
                0
            };
            let field: u32 = if s.previous.contains_key(csid) {
                s.previous[csid].timestamp_field
            } else {
                0
            };
            let length: u32 = if s.previous.contains_key(csid) {
                s.previous[csid].message_length
            } else {
                0
            };
            let type_id: u8 = if s.previous.contains_key(csid) {
                s.previous[csid].message_type_id
            } else {
                0
            };
            let stream_id: u32 = if s.previous.contains_key(csid) {
                s.previous[csid].message_stream_id
            } else {
                0
            };
            let message_time = if s.pending[csid].len() > 0 {
                last_time as int
            } else if field == 0xff_ffff {
                (last_time + time) % 0x1_0000_0000
            } else {
                (last_time + field) % 0x1_0000_0000
            };
            let gathered = s.pending[csid];
            let message_data = if gathered.len() > length {
                data
            } else {
                gathered + data
            };
            let is_complete = message_data.len() == length;
            &&& t.valid()
            &&& t.stage is Csid
            &&& t.buffer == rest
            &&& t.max_chunk_size == s.max_chunk_size
            &&& t.errors == if s.previous.contains_key(csid) || s.errors == u32::MAX {
                0
            } else {
                s.errors + 1
            }
            &&& t.pending == s.pending.insert(
                csid,
                if is_complete {
                    Seq::empty()
                } else {
                    message_data
                },
            )
            &&& t.previous == s.previous.insert(csid, t.previous[csid])
            &&& t.previous[csid].chunk_stream_id == csid
            &&& t.previous[csid].timestamp.value == message_time
            &&& t.previous[csid].timestamp_field == field
            &&& t.previous[csid].message_length == length
            &&& t.previous[csid].message_type_id == type_id
            &&& t.previous[csid].message_stream_id == stream_id
            &&& !is_complete ==> next_message(s) == next_message(t)
            &&& is_complete ==> {
                &&& next_message(s).1 == t
                &&& next_message(s).0 matches Outcome::Complete(message)
                &&& message.timestamp.value == message_time
                &&& message.type_id == type_id
                &&& message.message_stream_id == stream_id
                &&& message.data == message_data
            }
        }),
{
    let chunk = Chunk {
        form: form_of(head),
        format: ChunkHeaderFormat::Empty,
        csid,
        time,
        wide: false,
        message_length: 0,
        message_type_id: 0,
        message_stream_id: 0,
        data,
    };
    let stream = stream_of(s, csid);
    assert(basic_header_bytes(chunk.form, chunk.format, csid) =~= head);
    assert(s.buffer =~= chunk.bytes(stream) + rest);
    law_chunks_are_read_back(s, chunk, rest);
    received(s, chunk, rest)
}

/// A chunk that is not of type 0, on a chunk stream that has had none, is reported if
/// four such chunks came right before it.  The report names the chunk stream and
/// leaves all bytes, whatever they are, to be read.
pub proof fn law_orphans_are_reported(
    s: Deserializer,
    head: Seq<u8>,
    csid: u32,
    format: int,
    rest: Seq<u8>,
)
    requires
        s.stage is Csid,
        1 <= format <= 3,
        ({
            ||| 2 <= csid < 64 && head == seq![(64 * format + csid) as u8]
            ||| 64 <= csid < 64 + 0x100 && head == seq![(64 * format) as u8, (csid - 64) as u8]
            ||| 64 <= csid < 64 + 0x1_0000 && head == seq![
                (64 * format + 1) as u8,
                ((csid - 64) % 0x100) as u8,
                ((csid - 64) / 0x100) as u8,
            ]
        }),
        !s.previous.contains_key(csid),
        4 <= s.errors < u32::MAX,
        s.buffer == head + rest,
    ensures
        ({
            let (outcome, t) = next_message(s);
            &&& outcome == Outcome::Lost(csid)
            &&& t.stage is Csid
            &&& t.buffer == s.buffer
            &&& t.errors == s.errors + 1
            &&& t.max_chunk_size == s.max_chunk_size
            &&& t.pending == s.pending
            &&& t.previous == s.previous
        }),
{
    let format = if format == 1 {
        ChunkHeaderFormat::TimeDeltaWithoutMessageStreamId
    } else if format == 2 {
        ChunkHeaderFormat::TimeDeltaOnly
    } else {
        ChunkHeaderFormat::Empty
    };
    law_basic_headers_are_read_back(form_of(head), format, csid, rest);
    assert(basic_header_bytes(form_of(head), format, csid) =~= head);
    assert(basic_header(s.buffer)->0.csid == csid);
}

/// As long as part of a chunk is missing, nothing comes of it.
pub proof fn law_chunks_are_awaited(s: Deserializer, chunk: Chunk, missing: Seq<u8>)
    requires
        s.valid(),
        s.stage is Csid,
        chunk.fits(stream_of(s, chunk.csid), s.max_chunk_size),
        chunk.row(stream_of(s, chunk.csid), s.errors) < MAX_CONSECUTIVE_ERRORS,
        missing.len() > 0,
        s.buffer + missing == chunk.bytes(stream_of(s, chunk.csid)),
    ensures
        next_message(s).0 is Waiting,
{
    let all = s.fed(missing);
    let none = Seq::<u8>::empty();
    assert(stream_of(all, chunk.csid) == stream_of(s, chunk.csid));
    assert(all.buffer =~= chunk.bytes(stream_of(all, chunk.csid)) + none);
    law_bytes_may_come_later(s, missing);
    law_chunks_are_read_back(all, chunk, none);
    let t = next_message(s).1;
    assert(t.fed(missing).buffer.len() > 0);
    assert(next_message(received(all, chunk, none)).0 is Waiting);
}

} // verus!
