//! Chunks that are written are read back.

use crate::chunk_io::chunk_header::{ChunkHeader, ChunkHeaderFormat};
use crate::time::RtmpTimestamp;
use vstd::prelude::*;

verus! {

use crate::byte_buffers::{big_endian_24, big_endian_32, little_endian_32};
use crate::chunk_io::basic_header::{basic_header, BasicHeader};
use crate::chunk_io::model::{
    message_payload_step, next_message, Deserializer, Outcome, ParseStage, Step,
    MAX_CONSECUTIVE_ERRORS, MAX_INITIAL_TIMESTAMP,
};
use crate::chunk_io::wire::{
    basic_header_bytes, big_endian_24_bytes, big_endian_32_bytes, can_name, little_endian_32_bytes,
    received, stream_of, BasicHeaderForm, Chunk, ChunkStream,
};

/// A basic header says what was written in it, whatever comes behind it.
pub proof fn law_basic_headers_are_read_back(
    form: BasicHeaderForm,
    format: ChunkHeaderFormat,
    csid: u32,
    rest: Seq<u8>,
)
    requires
        can_name(form, csid),
    ensures
        basic_header(basic_header_bytes(form, format, csid) + rest) == Some(
            BasicHeader { format, csid, size: basic_header_bytes(form, format, csid).len() },
        ),
{
}

/// Numbers are read back, whatever comes behind them.
pub proof fn law_numbers_are_read_back(number: u32, rest: Seq<u8>)
    ensures
        number < 0x100_0000 ==> big_endian_24(big_endian_24_bytes(number) + rest) == number,
        big_endian_32(big_endian_32_bytes(number) + rest) == number,
        little_endian_32(little_endian_32_bytes(number) + rest) == number,
{
    assert(number == (number / 0x100_0000) * 0x100_0000 + (number / 0x1_0000 % 0x100) * 0x1_0000 + (
    number / 0x100 % 0x100) * 0x100 + number % 0x100) by (bit_vector);
    assert(number < 0x100_0000 ==> number == (number / 0x1_0000) * 0x1_0000 + (number / 0x100
        % 0x100) * 0x100 + number % 0x100) by (bit_vector);
    assert(number / 0x100_0000 < 0x100 && (number < 0x100_0000 ==> number / 0x1_0000 < 0x100))
        by (bit_vector);
    let a = big_endian_24_bytes(number) + rest;
    let b = big_endian_32_bytes(number) + rest;
    let c = little_endian_32_bytes(number) + rest;
    assert(a[0] == (number / 0x1_0000) as u8);
    assert(a[1] == (number / 0x100 % 0x100) as u8);
    assert(a[2] == (number % 0x100) as u8);
    assert(b[0] == (number / 0x100_0000) as u8);
    assert(b[1] == (number / 0x1_0000 % 0x100) as u8);
    assert(b[2] == (number / 0x100 % 0x100) as u8);
    assert(b[3] == (number % 0x100) as u8);
    assert(c[0] == b[3] && c[1] == b[2] && c[2] == b[1] && c[3] == b[0]);
}

/// What comes behind the front of a buffer.
proof fn lemma_behind(front: Seq<u8>, rest: Seq<u8>)
    ensures
        (front + rest).skip(front.len() as int) == rest,
        (front + rest).take(front.len() as int) == front,
{
    assert((front + rest).skip(front.len() as int) =~= rest);
    assert((front + rest).take(front.len() as int) =~= front);
}

/// Time passes in portions as it passes at once.
proof fn lemma_plus_plus(time: RtmpTimestamp, first: int, second: int)
    ensures
        time.plus(first).plus(second) == time.plus(first + second),
{
}

/// What comes out in the end, [`next_message`], as a term of its own.
#[verifier::opaque]
spec fn conclusion(s: Deserializer) -> (Outcome, Deserializer) {
    next_message(s)
}

/// The header of a chunk once its 24 bit time has been read.
spec fn header_with_time(chunk: Chunk, stream: ChunkStream) -> ChunkHeader {
    let base = chunk.base(stream);
    if chunk.format is Empty {
        if stream.gathered.len() == 0 {
            ChunkHeader { timestamp: base.timestamp.plus(base.timestamp_field as int), ..base }
        } else {
            base
        }
    } else {
        ChunkHeader {
            timestamp: if chunk.format is Full {
                RtmpTimestamp { value: chunk.time_field() }
            } else {
                base.timestamp.plus(chunk.time_field() as int)
            },
            timestamp_field: chunk.time_field(),
            ..base
        }
    }
}

/// The last headers of the chunk streams while a chunk is being read.
spec fn previous_while_reading(s: Deserializer, chunk: Chunk) -> Map<u32, ChunkHeader> {
    if chunk.format is Full {
        s.previous
    } else {
        s.previous.remove(chunk.csid)
    }
}

proof fn lemma_reads_basic_header(s: Deserializer, chunk: Chunk, tail: Seq<u8>)
    requires
        s.stage is Csid,
        can_name(chunk.form, chunk.csid),
        chunk.row(stream_of(s, chunk.csid), s.errors) < MAX_CONSECUTIVE_ERRORS,
        s.buffer == basic_header_bytes(chunk.form, chunk.format, chunk.csid) + tail,
    ensures
        conclusion(s) == conclusion(
            Deserializer {
                stage: ParseStage::InitialTimestamp,
                format: chunk.format,
                header: chunk.base(stream_of(s, chunk.csid)),
                buffer: tail,
                previous: previous_while_reading(s, chunk),
                errors: chunk.row(stream_of(s, chunk.csid), s.errors),
                ..s
            },
        ),
{
    reveal(conclusion);
    law_basic_headers_are_read_back(chunk.form, chunk.format, chunk.csid, tail);
    lemma_behind(basic_header_bytes(chunk.form, chunk.format, chunk.csid), tail);
    if !s.previous.contains_key(chunk.csid) {
        assert(s.previous.remove(chunk.csid) =~= s.previous);
    }
}

#[verifier::rlimit(40)]
proof fn lemma_reads_time(s: Deserializer, chunk: Chunk, stream: ChunkStream, tail: Seq<u8>)
    requires
        s.stage is InitialTimestamp,
        s.format == chunk.format,
        s.header == chunk.base(stream),
        s.gathered() == stream.gathered,
        s.buffer == chunk.time_bytes() + tail,
    ensures
        conclusion(s) == conclusion(
            Deserializer {
                stage: ParseStage::MessageLength,
                header: header_with_time(chunk, stream),
                buffer: tail,
                ..s
            },
        ),
{
    reveal(conclusion);
    law_numbers_are_read_back(chunk.time_field(), tail);
    lemma_behind(chunk.time_bytes(), tail);
    assert(Seq::<u8>::empty() + tail =~= tail);
}

proof fn lemma_reads_length(s: Deserializer, chunk: Chunk, tail: Seq<u8>)
    requires
        s.stage is MessageLength,
        s.format == chunk.format,
        chunk.message_length < 0x100_0000,
        s.buffer == chunk.length_bytes() + tail,
    ensures
        conclusion(s) == conclusion(
            Deserializer {
                stage: ParseStage::MessageTypeId,
                header: ChunkHeader {
                    message_length: if chunk.format.has_length_and_type() {
                        chunk.message_length
                    } else {
                        s.header.message_length
                    },
                    ..s.header
                },
                buffer: tail,
                ..s
            },
        ),
{
    reveal(conclusion);
    law_numbers_are_read_back(chunk.message_length, tail);
    lemma_behind(chunk.length_bytes(), tail);
    assert(Seq::<u8>::empty() + tail =~= tail);
}

proof fn lemma_reads_type(s: Deserializer, chunk: Chunk, tail: Seq<u8>)
    requires
        s.stage is MessageTypeId,
        s.format == chunk.format,
        s.buffer == chunk.type_bytes() + tail,
    ensures
        conclusion(s) == conclusion(
            Deserializer {
                stage: ParseStage::MessageStreamId,
                header: ChunkHeader {
                    message_type_id: if chunk.format.has_length_and_type() {
                        chunk.message_type_id
                    } else {
                        s.header.message_type_id
                    },
                    ..s.header
                },
                buffer: tail,
                ..s
            },
        ),
{
    reveal(conclusion);
    lemma_behind(chunk.type_bytes(), tail);
    assert(Seq::<u8>::empty() + tail =~= tail);
}

proof fn lemma_reads_stream(s: Deserializer, chunk: Chunk, tail: Seq<u8>)
    requires
        s.stage is MessageStreamId,
        s.format == chunk.format,
        s.buffer == chunk.stream_bytes() + tail,
    ensures
        conclusion(s) == conclusion(
            Deserializer {
                stage: ParseStage::ExtendedTimestamp,
                header: ChunkHeader {
                    message_stream_id: if chunk.format is Full {
                        chunk.message_stream_id
                    } else {
                        s.header.message_stream_id
                    },
                    ..s.header
                },
                buffer: tail,
                ..s
            },
        ),
{
    reveal(conclusion);
    law_numbers_are_read_back(chunk.message_stream_id, tail);
    lemma_behind(chunk.stream_bytes(), tail);
    assert(Seq::<u8>::empty() + tail =~= tail);
}

#[verifier::rlimit(40)]
proof fn lemma_reads_extended_time(
    s: Deserializer,
    chunk: Chunk,
    stream: ChunkStream,
    tail: Seq<u8>,
)
    requires
        s.stage is ExtendedTimestamp,
        s.format == chunk.format,
        chunk.base(stream).timestamp_field <= MAX_INITIAL_TIMESTAMP,
        s.header.timestamp == header_with_time(chunk, stream).timestamp,
        s.header.timestamp_field == header_with_time(chunk, stream).timestamp_field,
        s.gathered() == stream.gathered,
        s.buffer == chunk.extended_time_bytes(stream) + tail,
    ensures
        conclusion(s) == conclusion(
            Deserializer {
                stage: ParseStage::MessagePayload,
                header: ChunkHeader { timestamp: chunk.message_time(stream), ..s.header },
                buffer: tail,
                ..s
            },
        ),
{
    reveal(conclusion);
    law_numbers_are_read_back(chunk.time, tail);
    lemma_behind(chunk.extended_time_bytes(stream), tail);
    assert(Seq::<u8>::empty() + tail =~= tail);
    lemma_plus_plus(
        chunk.base(stream).timestamp,
        MAX_INITIAL_TIMESTAMP as int,
        chunk.time - MAX_INITIAL_TIMESTAMP,
    );
}

/// The deserializer in the middle of a chunk, when only its data is left to read.
spec fn at_data(s: Deserializer, chunk: Chunk, rest: Seq<u8>) -> Deserializer {
    Deserializer {
        stage: ParseStage::MessagePayload,
        format: chunk.format,
        header: chunk.header(stream_of(s, chunk.csid)),
        buffer: chunk.data + rest,
        previous: previous_while_reading(s, chunk),
        errors: chunk.row(stream_of(s, chunk.csid), s.errors),
        ..s
    }
}

/// The header of a chunk is read back.
#[verifier::rlimit(40)]
proof fn lemma_reads_header(s: Deserializer, chunk: Chunk, rest: Seq<u8>)
    requires
        s.valid(),
        s.stage is Csid,
        chunk.fits(stream_of(s, chunk.csid), s.max_chunk_size),
        chunk.row(stream_of(s, chunk.csid), s.errors) < MAX_CONSECUTIVE_ERRORS,
        s.buffer == chunk.bytes(stream_of(s, chunk.csid)) + rest,
    ensures
        conclusion(s) == conclusion(at_data(s, chunk, rest)),
{
    let stream = stream_of(s, chunk.csid);
    let data = chunk.data + rest;
    let extended = chunk.extended_time_bytes(stream) + data;
    let stream_id = chunk.stream_bytes() + extended;
    let type_id = chunk.type_bytes() + stream_id;
    let length = chunk.length_bytes() + type_id;
    let time = chunk.time_bytes() + length;
    assert(s.buffer =~= basic_header_bytes(chunk.form, chunk.format, chunk.csid) + time);

    lemma_reads_basic_header(s, chunk, time);
    let s1 = Deserializer {
        stage: ParseStage::InitialTimestamp,
        header: chunk.base(stream),
        buffer: time,
        ..at_data(s, chunk, rest)
    };
    lemma_reads_time(s1, chunk, stream, length);
    let s2 = Deserializer {
        stage: ParseStage::MessageLength,
        header: header_with_time(chunk, stream),
        buffer: length,
        ..s1
    };
    lemma_reads_length(s2, chunk, type_id);
    let s3 = Deserializer {
        stage: ParseStage::MessageTypeId,
        header: ChunkHeader {
            message_length: chunk.header(stream).message_length,
            ..s2.header
        },
        buffer: type_id,
        ..s2
    };
    lemma_reads_type(s3, chunk, stream_id);
    let s4 = Deserializer {
        stage: ParseStage::MessageStreamId,
        header: ChunkHeader {
            message_type_id: chunk.header(stream).message_type_id,
            ..s3.header
        },
        buffer: stream_id,
        ..s3
    };
    lemma_reads_stream(s4, chunk, extended);
    let s5 = Deserializer {
        stage: ParseStage::ExtendedTimestamp,
        header: ChunkHeader {
            message_stream_id: chunk.header(stream).message_stream_id,
            ..s4.header
        },
        buffer: extended,
        ..s4
    };
    lemma_reads_extended_time(s5, chunk, stream, data);
}

/// A chunk that fits is read back: it changes its chunk stream as it should, no
/// other, and the message that it completes, if it does, is returned.  This includes
/// chunks that lack a predecessor, as long as there are not five of them in a row.
pub proof fn law_chunks_are_read_back(s: Deserializer, chunk: Chunk, rest: Seq<u8>)
    requires
        s.valid(),
        s.stage is Csid,
        chunk.fits(stream_of(s, chunk.csid), s.max_chunk_size),
        chunk.row(stream_of(s, chunk.csid), s.errors) < MAX_CONSECUTIVE_ERRORS,
        s.buffer == chunk.bytes(stream_of(s, chunk.csid)) + rest,
    ensures
        received(s, chunk, rest).valid(),
        next_message(s) == if chunk.completes(stream_of(s, chunk.csid)) {
            (
                Outcome::Complete(chunk.message(stream_of(s, chunk.csid))),
                received(s, chunk, rest),
            )
        } else {
            next_message(received(s, chunk, rest))
        },
{
    reveal(conclusion);
    lemma_reads_header(s, chunk, rest);
    lemma_behind(chunk.data, rest);
    let t = at_data(s, chunk, rest);
    let ended = match message_payload_step(t) {
        Step::Advanced(t) => t,
        Step::Delivered(_, t) => t,
        _ => t,
    };
    assert(ended.previous =~= received(s, chunk, rest).previous);
    assert(ended =~= received(s, chunk, rest));
}

/// The fifth chunk in a row that lacks a predecessor is reported.
pub proof fn law_lost_chunks_are_not_read(s: Deserializer, chunk: Chunk, rest: Seq<u8>)
    requires
        s.valid(),
        s.stage is Csid,
        can_name(chunk.form, chunk.csid),
        chunk.row(stream_of(s, chunk.csid), s.errors) >= MAX_CONSECUTIVE_ERRORS,
        s.buffer == chunk.bytes(stream_of(s, chunk.csid)) + rest,
    ensures
        next_message(s).0 == Outcome::Lost(chunk.csid),
        next_message(s).1.buffer == s.buffer,
{
    let stream = stream_of(s, chunk.csid);
    let behind = chunk.time_bytes() + chunk.length_bytes() + chunk.type_bytes()
        + chunk.stream_bytes() + chunk.extended_time_bytes(stream) + chunk.data + rest;
    assert(s.buffer =~= basic_header_bytes(chunk.form, chunk.format, chunk.csid) + behind);
    law_basic_headers_are_read_back(chunk.form, chunk.format, chunk.csid, behind);
}

} // verus!
