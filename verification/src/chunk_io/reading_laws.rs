//! Whatever is read off a connection is made up of chunks.

use crate::chunk_io::chunk_header::ChunkHeader;
use vstd::prelude::*;

verus! {

use crate::byte_buffers::{big_endian_24, big_endian_32, little_endian_32};
use crate::chunk_io::basic_header::basic_header;
use crate::chunk_io::connection_laws::{
    all_bytes, all_fit, deliveries, law_connections_are_read_back, law_deliveries_add_up,
    messages_of, none_is_lost, passed_all, passed_one, row_after, streams_of,
};
use crate::chunk_io::laws::{
    after, drained, law_steps_make_progress, lemma_starved_step_with_more_bytes,
    lemma_step_with_more_bytes,
};
use crate::chunk_io::model::{
    chunk_data_size, next_message, one_more, parts_left, step, Deserializer, Step,
    MAX_CONSECUTIVE_ERRORS, MAX_INITIAL_TIMESTAMP,
};
use crate::chunk_io::wire::{
    basic_header_bytes, big_endian_24_bytes, big_endian_32_bytes, can_name, little_endian_32_bytes,
    stream_of, BasicHeaderForm, Chunk, ChunkStream,
};

/// The deserializer once it has read the rest of the current chunk, if all of the
/// chunk is there.
pub open spec fn chunk_read(s: Deserializer) -> Option<Deserializer>
    decreases s.buffer.len(), parts_left(s.stage),
{
    match step(s) {
        Step::Advanced(t) => if t.stage is Csid {
            Some(t)
        } else {
            chunk_read(t)
        },
        Step::Delivered(_, t) => Some(t),
        _ => None,
    }
}

/// The parts of a header do not depend on the maximum chunk size.
proof fn lemma_size_concerns_data_only(s: Deserializer, new_size: nat)
    requires
        !(s.stage is MessagePayload),
        next_message(s).0 is Waiting,
        chunk_read(s) is None,
    ensures
        ({
            let t = after(step(s));
            let resized = Deserializer { max_chunk_size: new_size, ..s };
            let resized_after = Deserializer { max_chunk_size: new_size, ..t };
            &&& step(s) is Starved || step(s) is Advanced
            &&& step(s) is Starved ==> {
                &&& step(resized) == Step::Starved(resized_after)
                &&& next_message(s).1 == t
            }
            &&& step(s) is Advanced ==> {
                &&& step(resized) == Step::Advanced(resized_after)
                &&& next_message(s) == next_message(t)
                &&& chunk_read(t) is None
                &&& decreases_to!(
                    s.buffer.len(), parts_left(s.stage) => t.buffer.len(), parts_left(t.stage)
                )
            }
        }),
{
    if step(s) is Advanced {
        law_steps_make_progress(s);
    }
}

/// A chunk whose data is awaited is left as it is.
proof fn lemma_data_awaited(s: Deserializer)
    requires
        s.stage is MessagePayload,
        chunk_read(s) is None,
    ensures
        next_message(s).1 == s,
{
}

/// The maximum chunk size may change in the middle of a chunk.  It decides how much
/// data the chunk has when that is read, so the chunk is read as if the size had been
/// known from its start.
pub proof fn law_chunk_size_may_change_within_chunk(s: Deserializer, more: Seq<u8>, new_size: nat)
    requires
        next_message(s).0 is Waiting,
        chunk_read(s) is None,
    ensures
        ({
            let t = next_message(s).1;
            next_message(
                Deserializer { max_chunk_size: new_size, buffer: t.buffer + more, ..t },
            ) == next_message(
                Deserializer { max_chunk_size: new_size, buffer: s.buffer + more, ..s },
            )
        }),
    decreases s.buffer.len(), parts_left(s.stage),
{
    let resized = Deserializer { max_chunk_size: new_size, ..s };
    if s.stage is MessagePayload {
        lemma_data_awaited(s);
    } else {
        lemma_size_concerns_data_only(s, new_size);
        if step(s) is Advanced {
            law_chunk_size_may_change_within_chunk(after(step(s)), more, new_size);
            lemma_step_with_more_bytes(resized, more);
        } else {
            lemma_starved_step_with_more_bytes(resized, more);
        }
    }
}

/// The digits of a number, to the base of 256.
proof fn lemma_digits(number: u32, a: u8, b: u8, c: u8, d: u8)
    requires
        number == a * 0x100_0000 + b * 0x1_0000 + c * 0x100 + d,
    ensures
        number / 0x100_0000 == a,
        number / 0x1_0000 % 0x100 == b,
        number / 0x100 % 0x100 == c,
        number % 0x100 == d,
        a == 0 ==> number / 0x1_0000 == b && number < 0x100_0000,
{
    assert(number / 0x100_0000 == a && number / 0x1_0000 % 0x100 == b && number / 0x100 % 0x100 == c
        && number % 0x100 == d && (a == 0 ==> number / 0x1_0000 == b && number < 0x100_0000))
        by (bit_vector)
        requires
            number == a * 0x100_0000 + b * 0x1_0000 + c * 0x100 + d,
    ;
}

/// Numbers that are read can be written again, with the same bytes.
pub proof fn law_numbers_are_written_back(bytes: Seq<u8>)
    ensures
        bytes.len() >= 3 ==> big_endian_24(bytes) < 0x100_0000,
        bytes.len() >= 3 ==> big_endian_24_bytes(big_endian_24(bytes)) == bytes.take(3),
        bytes.len() >= 4 ==> big_endian_32_bytes(big_endian_32(bytes)) == bytes.take(4),
        bytes.len() >= 4 ==> little_endian_32_bytes(little_endian_32(bytes)) == bytes.take(4),
{
    if bytes.len() >= 3 {
        lemma_digits(big_endian_24(bytes), 0, bytes[0], bytes[1], bytes[2]);
        assert(big_endian_24_bytes(big_endian_24(bytes)) =~= bytes.take(3));
    }
    if bytes.len() >= 4 {
        lemma_digits(big_endian_32(bytes), bytes[0], bytes[1], bytes[2], bytes[3]);
        lemma_digits(little_endian_32(bytes), bytes[3], bytes[2], bytes[1], bytes[0]);
        assert(big_endian_32_bytes(big_endian_32(bytes)) =~= bytes.take(4));
        assert(little_endian_32_bytes(little_endian_32(bytes)) =~= bytes.take(4));
    }
}

/// A basic header that is read can be written again, with the same bytes.
pub proof fn law_basic_headers_are_written_back(bytes: Seq<u8>) -> (form: BasicHeaderForm)
    requires
        basic_header(bytes) is Some,
    ensures
        basic_header(bytes) matches Some(basic) && {
            &&& can_name(form, basic.csid)
            &&& basic.size <= bytes.len()
            &&& basic_header_bytes(form, basic.format, basic.csid) == bytes.take(basic.size as int)
        },
{
    let basic = basic_header(bytes)->0;
    let low = bytes[0] % 64;
    let form = if low == 0 {
        BasicHeaderForm::TwoBytes
    } else if low == 1 {
        BasicHeaderForm::ThreeBytes
    } else {
        BasicHeaderForm::OneByte
    };
    assert(basic_header_bytes(form, basic.format, basic.csid) =~= bytes.take(basic.size as int));
    form
}

/// The front of a buffer and what comes behind it make up the buffer.
proof fn lemma_front_and_behind(bytes: Seq<u8>, count: int)
    requires
        0 <= count <= bytes.len(),
    ensures
        bytes == bytes.take(count) + bytes.skip(count),
{
    assert(bytes =~= bytes.take(count) + bytes.skip(count));
}

/// What [`chunk_read`] says, as a term of its own.
#[verifier::opaque]
spec fn end_of_chunk(s: Deserializer) -> Option<Deserializer> {
    chunk_read(s)
}

/// The deserializer after the part that it is at, as a term of its own.
#[verifier::opaque]
spec fn part_read(s: Deserializer) -> Deserializer {
    after(step(s))
}

/// What the parts of a header leave as it is.
spec fn same_chunk(s: Deserializer, t: Deserializer) -> bool {
    &&& t.format == s.format
    &&& t.header.chunk_stream_id == s.header.chunk_stream_id
    &&& t.pending == s.pending
    &&& t.max_chunk_size == s.max_chunk_size
    &&& end_of_chunk(t) == end_of_chunk(s)
}

proof fn lemma_basic_header_is_written(s: Deserializer) -> (form: BasicHeaderForm)
    requires
        s.stage is Csid,
        end_of_chunk(s) is Some,
    ensures
        ({
            let t = part_read(s);
            let basic = basic_header(s.buffer)->0;
            let stream = stream_of(s, basic.csid);
            &&& basic_header(s.buffer) is Some
            &&& t.stage is InitialTimestamp
            &&& t.format == basic.format
            &&& t.header == if basic.format is Full || stream.last is None {
                ChunkHeader::blank(basic.csid)
            } else {
                stream.last->0
            }
            &&& t.pending == s.pending
            &&& t.max_chunk_size == s.max_chunk_size
            &&& end_of_chunk(t) == end_of_chunk(s)
            &&& !(basic.format is Full) && stream.last is None ==> one_more(s.errors)
                < MAX_CONSECUTIVE_ERRORS
            &&& can_name(form, basic.csid)
            &&& s.buffer == basic_header_bytes(form, basic.format, basic.csid) + t.buffer
        }),
{
    reveal(end_of_chunk);
    reveal(part_read);
    let form = law_basic_headers_are_written_back(s.buffer);
    lemma_front_and_behind(s.buffer, basic_header(s.buffer)->0.size as int);
    form
}

proof fn lemma_time_is_written(s: Deserializer)
    requires
        s.stage is InitialTimestamp,
        end_of_chunk(s) is Some,
    ensures
        ({
            let t = part_read(s);
            let time = t.header.timestamp_field;
            &&& t.stage is MessageLength
            &&& same_chunk(s, t)
            &&& t.header == (ChunkHeader {
                timestamp: t.header.timestamp,
                timestamp_field: time,
                ..s.header
            })
            &&& s.format is Empty ==> time == s.header.timestamp_field && s.buffer == t.buffer
            &&& !(s.format is Empty) ==> time < 0x100_0000 && s.buffer == big_endian_24_bytes(time)
                + t.buffer
        }),
{
    reveal(end_of_chunk);
    reveal(part_read);
    law_numbers_are_written_back(s.buffer);
    if !(s.format is Empty) {
        lemma_front_and_behind(s.buffer, 3);
    }
}

proof fn lemma_length_is_written(s: Deserializer)
    requires
        s.stage is MessageLength,
        end_of_chunk(s) is Some,
    ensures
        ({
            let t = part_read(s);
            let length = t.header.message_length;
            &&& t.stage is MessageTypeId
            &&& same_chunk(s, t)
            &&& t.header == (ChunkHeader { message_length: length, ..s.header })
            &&& !s.format.has_length_and_type() ==> length == s.header.message_length && s.buffer
                == t.buffer
            &&& s.format.has_length_and_type() ==> length < 0x100_0000 && s.buffer
                == big_endian_24_bytes(length) + t.buffer
        }),
{
    reveal(end_of_chunk);
    reveal(part_read);
    law_numbers_are_written_back(s.buffer);
    if s.format.has_length_and_type() {
        lemma_front_and_behind(s.buffer, 3);
    }
}

proof fn lemma_type_is_written(s: Deserializer)
    requires
        s.stage is MessageTypeId,
        end_of_chunk(s) is Some,
    ensures
        ({
            let t = part_read(s);
            let type_id = t.header.message_type_id;
            &&& t.stage is MessageStreamId
            &&& same_chunk(s, t)
            &&& t.header == (ChunkHeader { message_type_id: type_id, ..s.header })
            &&& !s.format.has_length_and_type() ==> s.buffer == t.buffer
            &&& s.format.has_length_and_type() ==> s.buffer == seq![type_id] + t.buffer
        }),
{
    reveal(end_of_chunk);
    reveal(part_read);
    if s.format.has_length_and_type() {
        lemma_front_and_behind(s.buffer, 1);
        assert(s.buffer.take(1) =~= seq![s.buffer[0]]);
    }
}

proof fn lemma_stream_is_written(s: Deserializer)
    requires
        s.stage is MessageStreamId,
        end_of_chunk(s) is Some,
    ensures
        ({
            let t = part_read(s);
            let stream_id = t.header.message_stream_id;
            &&& t.stage is ExtendedTimestamp
            &&& same_chunk(s, t)
            &&& t.header == (ChunkHeader { message_stream_id: stream_id, ..s.header })
            &&& !(s.format is Full) ==> s.buffer == t.buffer
            &&& s.format is Full ==> s.buffer == little_endian_32_bytes(stream_id) + t.buffer
        }),
{
    reveal(end_of_chunk);
    reveal(part_read);
    law_numbers_are_written_back(s.buffer);
    if s.format is Full {
        lemma_front_and_behind(s.buffer, 4);
    }
}

proof fn lemma_extended_time_is_written(s: Deserializer)
    requires
        s.stage is ExtendedTimestamp,
        end_of_chunk(s) is Some,
    ensures
        ({
            let t = part_read(s);
            let extended = s.header.timestamp_field >= MAX_INITIAL_TIMESTAMP;
            &&& t.stage is MessagePayload
            &&& same_chunk(s, t)
            &&& t.header == (ChunkHeader { timestamp: t.header.timestamp, ..s.header })
            &&& !extended ==> s.buffer == t.buffer
            &&& extended ==> s.buffer == big_endian_32_bytes(big_endian_32(s.buffer)) + t.buffer
        }),
{
    reveal(end_of_chunk);
    reveal(part_read);
    law_numbers_are_written_back(s.buffer);
    if s.header.timestamp_field >= MAX_INITIAL_TIMESTAMP {
        lemma_front_and_behind(s.buffer, 4);
    }
}

proof fn lemma_data_is_written(s: Deserializer) -> (data: Seq<u8>)
    requires
        s.stage is MessagePayload,
        end_of_chunk(s) is Some,
    ensures
        data.len() == chunk_data_size(
            s.gathered().len(),
            s.header.message_length as nat,
            s.max_chunk_size,
        ),
        s.buffer == data + end_of_chunk(s)->0.buffer,
{
    reveal(end_of_chunk);
    let size = chunk_data_size(
        s.gathered().len(),
        s.header.message_length as nat,
        s.max_chunk_size,
    );
    lemma_front_and_behind(s.buffer, size as int);
    s.buffer.take(size as int)
}

/// Parts that follow on each other, put together from the end or from the start.
proof fn lemma_parts_add_up(a: Seq<u8>, b: Seq<u8>, c: Seq<u8>, d: Seq<u8>)
    ensures
        a + (b + (c + d)) == a + b + c + d,
        (a + b) + (c + d) == a + b + c + d,
{
    assert(a + (b + (c + d)) =~= a + b + c + d);
    assert((a + b) + (c + d) =~= a + b + c + d);
}

/// The parts of a chunk, one behind the other, are the chunk.
proof fn lemma_parts_make_up_chunk(chunk: Chunk, stream: ChunkStream, rest: Seq<u8>)
    ensures
        basic_header_bytes(chunk.form, chunk.format, chunk.csid) + (chunk.time_bytes() + (
        chunk.length_bytes() + (chunk.type_bytes() + (chunk.stream_bytes() + (
        chunk.extended_time_bytes(stream) + (chunk.data + rest)))))) == chunk.bytes(stream) + rest,
{
    let basic = basic_header_bytes(chunk.form, chunk.format, chunk.csid);
    let time = chunk.time_bytes();
    let length = chunk.length_bytes();
    let type_id = chunk.type_bytes();
    let stream_id = chunk.stream_bytes();
    let extended = chunk.extended_time_bytes(stream);
    lemma_parts_add_up(stream_id, extended, chunk.data, rest);
    lemma_parts_add_up(basic, time, length, type_id + (stream_id + extended + chunk.data + rest));
    lemma_parts_add_up(basic + time + length, type_id, stream_id + extended + chunk.data, rest);
    lemma_parts_add_up(basic + time + length + type_id, stream_id, extended, chunk.data);
}

/// What is proved below of [`chunk_read`], proved of [`end_of_chunk`].
proof fn lemma_what_is_read_is_a_chunk(s: Deserializer) -> (chunk: Chunk)
    requires
        s.valid(),
        s.stage is Csid,
        end_of_chunk(s) is Some,
    ensures
        chunk.fits(stream_of(s, chunk.csid), s.max_chunk_size),
        chunk.row(stream_of(s, chunk.csid), s.errors) < MAX_CONSECUTIVE_ERRORS,
        s.buffer == chunk.bytes(stream_of(s, chunk.csid)) + end_of_chunk(s)->0.buffer,
{
    let rest = end_of_chunk(s)->0.buffer;
    let s1 = part_read(s);
    let s2 = part_read(s1);
    let s3 = part_read(s2);
    let s4 = part_read(s3);
    let s5 = part_read(s4);
    let s6 = part_read(s5);
    let form = lemma_basic_header_is_written(s);
    lemma_time_is_written(s1);
    lemma_length_is_written(s2);
    lemma_type_is_written(s3);
    lemma_stream_is_written(s4);
    lemma_extended_time_is_written(s5);
    let data = lemma_data_is_written(s6);

    let basic = basic_header(s.buffer)->0;
    let stream = stream_of(s, basic.csid);
    let extended = s5.header.timestamp_field >= MAX_INITIAL_TIMESTAMP;
    let chunk = Chunk {
        form,
        format: basic.format,
        csid: basic.csid,
        time: if extended {
            big_endian_32(s5.buffer)
        } else {
            s5.header.timestamp_field
        },
        wide: extended,
        message_length: s6.header.message_length,
        message_type_id: s6.header.message_type_id,
        message_stream_id: s6.header.message_stream_id,
        data,
    };
    let empty = Seq::<u8>::empty();
    assert(empty + s6.buffer =~= s6.buffer);
    assert(empty + s5.buffer =~= s5.buffer);
    assert(empty + s4.buffer =~= s4.buffer);
    assert(empty + s3.buffer =~= s3.buffer);
    assert(empty + s2.buffer =~= s2.buffer);
    assert(s5.buffer == chunk.extended_time_bytes(stream) + s6.buffer);
    assert(s4.buffer == chunk.stream_bytes() + s5.buffer);
    assert(s3.buffer == chunk.type_bytes() + s4.buffer);
    assert(s2.buffer == chunk.length_bytes() + s3.buffer);
    assert(s1.buffer == chunk.time_bytes() + s2.buffer);
    lemma_parts_make_up_chunk(chunk, stream, rest);
    chunk
}

/// Whatever is read as a chunk is a chunk that fits: it can be written, with the
/// same bytes.
pub proof fn law_what_is_read_is_a_chunk(s: Deserializer) -> (chunk: Chunk)
    requires
        s.valid(),
        s.stage is Csid,
        chunk_read(s) is Some,
    ensures
        chunk.fits(stream_of(s, chunk.csid), s.max_chunk_size),
        chunk.row(stream_of(s, chunk.csid), s.errors) < MAX_CONSECUTIVE_ERRORS,
        s.buffer == chunk.bytes(stream_of(s, chunk.csid)) + chunk_read(s)->0.buffer,
{
    reveal(end_of_chunk);
    lemma_what_is_read_is_a_chunk(s)
}

/// Without a whole chunk there is no message.
proof fn lemma_messages_take_whole_chunks(s: Deserializer)
    requires
        chunk_read(s) is None,
    ensures
        !(next_message(s).0 is Complete),
    decreases s.buffer.len(), parts_left(s.stage),
{
    if let Step::Advanced(t) = step(s) {
        lemma_messages_take_whole_chunks(t);
    }
}

/// A row of one chunk.
proof fn lemma_one_chunk(streams: Map<u32, ChunkStream>, chunk: Chunk, size: nat, before: u32)
    ensures
        ({
            let stream = streams[chunk.csid];
            &&& all_fit(streams, seq![chunk], size) == chunk.fits(stream, size)
            &&& none_is_lost(streams, seq![chunk], before) == (chunk.row(stream, before)
                < MAX_CONSECUTIVE_ERRORS)
            &&& all_bytes(streams, seq![chunk]) == chunk.bytes(stream)
            &&& chunk.bytes(stream).len() > 0
        }),
{
    let none = seq![chunk].drop_first();
    let next = passed_one(streams, chunk);
    let row = chunk.row(streams[chunk.csid], before);
    assert(none.len() == 0);
    assert(all_fit(next, none, size) && none_is_lost(next, none, row));
    assert(all_bytes(next, none) =~= Seq::empty());
    assert(all_bytes(streams, seq![chunk]) =~= chunk.bytes(streams[chunk.csid]));
}

/// Whatever bytes a connection carries, they are a row of chunks that fit, up to a
/// place where no whole chunk follows or where a chunk is lost.  The messages that
/// are returned are those that these chunks deliver.
pub proof fn law_connections_are_made_of_chunks(s: Deserializer) -> (read: (
    Seq<Chunk>,
    Deserializer,
))
    requires
        s.valid(),
        s.stage is Csid,
    ensures
        ({
            let (chunks, t) = read;
            let streams = streams_of(s);
            &&& all_fit(streams, chunks, s.max_chunk_size)
            &&& none_is_lost(streams, chunks, s.errors)
            &&& s.buffer == all_bytes(streams, chunks) + t.buffer
            &&& t.valid()
            &&& t.stage is Csid
            &&& t.max_chunk_size == s.max_chunk_size
            &&& t.errors == row_after(streams, chunks, s.errors)
            &&& streams_of(t) == passed_all(streams, chunks)
            &&& chunk_read(t) is None
            &&& drained(s).messages == messages_of(deliveries(streams, chunks))
            &&& drained(s).lost == drained(t).lost
        }),
    decreases s.buffer.len(),
{
    let streams = streams_of(s);
    if chunk_read(s) is None {
        let none = Seq::<Chunk>::empty();
        lemma_messages_take_whole_chunks(s);
        assert(all_bytes(streams, none) + s.buffer =~= s.buffer);
        assert(messages_of(deliveries(streams, none)) =~= Seq::empty());
        (none, s)
    } else {
        let chunk = law_what_is_read_is_a_chunk(s);
        let first = seq![chunk];
        let rest = chunk_read(s)->0.buffer;
        lemma_one_chunk(streams, chunk, s.max_chunk_size, s.errors);
        let s1 = law_connections_are_read_back(s, first, rest);
        let (later, t) = law_connections_are_made_of_chunks(s1);
        let chunks = first + later;
        law_deliveries_add_up(streams, first, later, s.max_chunk_size, s.errors);
        assert(s.buffer =~= all_bytes(streams, chunks) + t.buffer);
        assert(messages_of(deliveries(streams, chunks)) =~= messages_of(deliveries(streams, first))
            + messages_of(deliveries(streams_of(s1), later)));
        (chunks, t)
    }
}

} // verus!
