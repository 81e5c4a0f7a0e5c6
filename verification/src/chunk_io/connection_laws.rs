//! What comes out of a connection, chunk by chunk and message by message.

use crate::chunk_io::chunk_header::ChunkHeaderFormat;
use vstd::prelude::*;

verus! {

use crate::chunk_io::laws::drained;
use crate::chunk_io::model::{
    next_message, Deserializer, Outcome, LARGEST_CHUNK_SIZE, MAX_CONSECUTIVE_ERRORS,
};
use crate::chunk_io::wire::{can_name, received, stream_of, Chunk, ChunkStream};
use crate::chunk_io::wire_laws::{law_chunks_are_read_back, law_lost_chunks_are_not_read};
use crate::messages::Message;

/// A message, and the chunk stream that it came on.
pub struct Delivery {
    pub csid: u32,
    pub message: Message,
}

/// What a deserializer knows about each chunk stream.
pub open spec fn streams_of(s: Deserializer) -> Map<u32, ChunkStream> {
    Map::total(|csid: u32| stream_of(s, csid))
}

/// The chunk streams after a chunk.
pub open spec fn passed_one(streams: Map<u32, ChunkStream>, chunk: Chunk) -> Map<u32, ChunkStream> {
    streams.insert(chunk.csid, chunk.passed(streams[chunk.csid]))
}

/// The chunk streams after some chunks.
pub open spec fn passed_all(streams: Map<u32, ChunkStream>, chunks: Seq<Chunk>) -> Map<
    u32,
    ChunkStream,
>
    decreases chunks.len(),
{
    if chunks.len() == 0 {
        streams
    } else {
        passed_all(passed_one(streams, chunks[0]), chunks.drop_first())
    }
}

/// The chunks may come one after the other.
pub open spec fn all_fit(
    streams: Map<u32, ChunkStream>,
    chunks: Seq<Chunk>,
    max_chunk_size: nat,
) -> bool
    decreases chunks.len(),
{
    chunks.len() > 0 ==> {
        &&& chunks[0].fits(streams[chunks[0].csid], max_chunk_size)
        &&& all_fit(passed_one(streams, chunks[0]), chunks.drop_first(), max_chunk_size)
    }
}

/// How many chunks in a row lack a predecessor at the end of the chunks.
pub open spec fn row_after(
    streams: Map<u32, ChunkStream>,
    chunks: Seq<Chunk>,
    before: u32,
) -> u32
    decreases chunks.len(),
{
    if chunks.len() == 0 {
        before
    } else {
        row_after(
            passed_one(streams, chunks[0]),
            chunks.drop_first(),
            chunks[0].row(streams[chunks[0].csid], before),
        )
    }
}

/// Nowhere do too many chunks in a row lack a predecessor.
pub open spec fn none_is_lost(
    streams: Map<u32, ChunkStream>,
    chunks: Seq<Chunk>,
    before: u32,
) -> bool
    decreases chunks.len(),
{
    chunks.len() > 0 ==> {
        let row = chunks[0].row(streams[chunks[0].csid], before);
        &&& row < MAX_CONSECUTIVE_ERRORS
        &&& none_is_lost(passed_one(streams, chunks[0]), chunks.drop_first(), row)
    }
}

/// The chunks on the wire.
pub open spec fn all_bytes(streams: Map<u32, ChunkStream>, chunks: Seq<Chunk>) -> Seq<u8>
    decreases chunks.len(),
{
    if chunks.len() == 0 {
        Seq::empty()
    } else {
        chunks[0].bytes(streams[chunks[0].csid]) + all_bytes(
            passed_one(streams, chunks[0]),
            chunks.drop_first(),
        )
    }
}

/// What a chunk delivers: one message or none.
pub open spec fn delivery(streams: Map<u32, ChunkStream>, chunk: Chunk) -> Seq<Delivery> {
    let stream = streams[chunk.csid];
    if chunk.completes(stream) {
        seq![Delivery { csid: chunk.csid, message: chunk.message(stream) }]
    } else {
        Seq::empty()
    }
}

/// What the chunks deliver.
pub open spec fn deliveries(streams: Map<u32, ChunkStream>, chunks: Seq<Chunk>) -> Seq<Delivery>
    decreases chunks.len(),
{
    if chunks.len() == 0 {
        Seq::empty()
    } else {
        delivery(streams, chunks[0]) + deliveries(
            passed_one(streams, chunks[0]),
            chunks.drop_first(),
        )
    }
}

/// The messages that are delivered.
pub open spec fn messages_of(delivered: Seq<Delivery>) -> Seq<Message> {
    delivered.map_values(|d: Delivery| d.message)
}

/// Reading a chunk passes it on to its chunk stream.
proof fn lemma_received_streams(s: Deserializer, chunk: Chunk, rest: Seq<u8>)
    requires
        s.valid(),
    ensures
        streams_of(received(s, chunk, rest)) == passed_one(streams_of(s), chunk),
{
    let t = received(s, chunk, rest);
    assert forall|csid: u32| streams_of(t)[csid] == #[trigger] passed_one(
        streams_of(s),
        chunk,
    )[csid] by {
        assert(stream_of(t, csid) =~= passed_one(streams_of(s), chunk)[csid]);
    }
    assert(streams_of(t) =~= passed_one(streams_of(s), chunk));
}

/// Chunks that fit, of any number of chunk streams, deliver their messages in order,
/// and what comes behind them is left to be read.  This includes chunks that lack a
/// predecessor, as long as none of them is lost.
pub proof fn law_connections_are_read_back(
    s: Deserializer,
    chunks: Seq<Chunk>,
    rest: Seq<u8>,
) -> (t: Deserializer)
    requires
        s.valid(),
        s.stage is Csid,
        all_fit(streams_of(s), chunks, s.max_chunk_size),
        none_is_lost(streams_of(s), chunks, s.errors),
        s.buffer == all_bytes(streams_of(s), chunks) + rest,
    ensures
        t.valid(),
        t.stage is Csid,
        t.buffer == rest,
        t.max_chunk_size == s.max_chunk_size,
        t.errors == row_after(streams_of(s), chunks, s.errors),
        streams_of(t) == passed_all(streams_of(s), chunks),
        drained(s) == drained(t).preceded_by(messages_of(deliveries(streams_of(s), chunks))),
    decreases chunks.len(),
{
    let streams = streams_of(s);
    if chunks.len() == 0 {
        assert(s.buffer =~= rest);
        assert(drained(s).preceded_by(messages_of(deliveries(streams, chunks))) =~= drained(s));
        s
    } else {
        let chunk = chunks[0];
        let behind = all_bytes(passed_one(streams, chunk), chunks.drop_first()) + rest;
        assert(s.buffer =~= chunk.bytes(stream_of(s, chunk.csid)) + behind);
        law_chunks_are_read_back(s, chunk, behind);
        lemma_received_streams(s, chunk, behind);
        let next = received(s, chunk, behind);
        let t = law_connections_are_read_back(next, chunks.drop_first(), rest);
        let later = deliveries(passed_one(streams, chunk), chunks.drop_first());
        assert(drained(s) == drained(next).preceded_by(messages_of(delivery(streams, chunk)))) by {
            if chunk.completes(stream_of(s, chunk.csid)) {
                assert(messages_of(delivery(streams, chunk)) =~= seq![
                    chunk.message(stream_of(s, chunk.csid)),
                ]);
            } else {
                assert(drained(s) == drained(next));
                assert(drained(next).preceded_by(messages_of(delivery(streams, chunk)))
                    =~= drained(next));
            }
        }
        assert(messages_of(deliveries(streams, chunks)) =~= messages_of(delivery(streams, chunk))
            + messages_of(later));
        assert(drained(s) =~= drained(t).preceded_by(messages_of(deliveries(streams, chunks))));
        t
    }
}

/// The chunks of one chunk stream.
pub open spec fn chunks_on(chunks: Seq<Chunk>, csid: u32) -> Seq<Chunk> {
    chunks.filter(|chunk: Chunk| chunk.csid == csid)
}

/// The deliveries of one chunk stream.
pub open spec fn deliveries_on(delivered: Seq<Delivery>, csid: u32) -> Seq<Delivery> {
    delivered.filter(|d: Delivery| d.csid == csid)
}

/// A sequence of one, filtered.
proof fn lemma_filter_one<A>(item: A, pred: spec_fn(A) -> bool)
    ensures
        seq![item].filter(pred) == if pred(item) {
            seq![item]
        } else {
            Seq::empty()
        },
{
    reveal_with_fuel(Seq::filter, 2);
    assert(seq![item].drop_last() =~= Seq::empty());
    assert(Seq::<A>::empty().push(item) =~= seq![item]);
}

/// However chunks of several chunk streams are interleaved, each chunk stream
/// delivers what it delivers alone, and ends up as it does alone.
pub proof fn law_streams_are_independent(
    streams: Map<u32, ChunkStream>,
    alone: Map<u32, ChunkStream>,
    chunks: Seq<Chunk>,
    csid: u32,
    max_chunk_size: nat,
)
    requires
        streams[csid] == alone[csid],
        all_fit(streams, chunks, max_chunk_size),
    ensures
        all_fit(alone, chunks_on(chunks, csid), max_chunk_size),
        deliveries(alone, chunks_on(chunks, csid)) == deliveries_on(
            deliveries(streams, chunks),
            csid,
        ),
        passed_all(alone, chunks_on(chunks, csid))[csid] == passed_all(streams, chunks)[csid],
    decreases chunks.len(),
{
    let on_chunk = |chunk: Chunk| chunk.csid == csid;
    let on_delivery = |d: Delivery| d.csid == csid;
    reveal(Seq::filter);
    if chunks.len() > 0 {
        let chunk = chunks[0];
        let first = seq![chunk];
        let others = chunks.drop_first();
        let later = deliveries(passed_one(streams, chunk), others);
        Seq::filter_distributes_over_add(first, others, on_chunk);
        Seq::filter_distributes_over_add(delivery(streams, chunk), later, on_delivery);
        assert(first + others =~= chunks);
        lemma_filter_one(chunk, on_chunk);
        if chunk.completes(streams[chunk.csid]) {
            lemma_filter_one(delivery(streams, chunk)[0], on_delivery);
        }
        if chunk.csid == csid {
            assert(chunks_on(chunks, csid) =~= first + chunks_on(others, csid));
            assert(chunks_on(chunks, csid)[0] == chunk);
            assert(chunks_on(chunks, csid).drop_first() =~= chunks_on(others, csid));
            law_streams_are_independent(
                passed_one(streams, chunk),
                passed_one(alone, chunk),
                others,
                csid,
                max_chunk_size,
            );
            assert(deliveries_on(delivery(streams, chunk), csid) =~= delivery(alone, chunk));
        } else {
            assert(chunks_on(chunks, csid) =~= chunks_on(others, csid));
            law_streams_are_independent(
                passed_one(streams, chunk),
                alone,
                others,
                csid,
                max_chunk_size,
            );
            assert(deliveries_on(delivery(streams, chunk), csid) =~= Seq::empty());
            assert(deliveries_on(deliveries(streams, chunks), csid) =~= deliveries_on(later, csid));
        }
    }
}

/// The chunks of one chunk stream fit or do not fit whatever the others are like.
proof fn lemma_fit_alone(
    streams: Map<u32, ChunkStream>,
    alone: Map<u32, ChunkStream>,
    chunks: Seq<Chunk>,
    csid: u32,
    max_chunk_size: nat,
)
    requires
        streams[csid] == alone[csid],
        forall|i: int| 0 <= i < chunks.len() ==> (#[trigger] chunks[i]).csid == csid,
        all_fit(streams, chunks, max_chunk_size),
    ensures
        all_fit(alone, chunks, max_chunk_size),
    decreases chunks.len(),
{
    if chunks.len() > 0 {
        lemma_fit_alone(
            passed_one(streams, chunks[0]),
            passed_one(alone, chunks[0]),
            chunks.drop_first(),
            csid,
            max_chunk_size,
        );
    }
}

/// Chunks may be interleaved at will: they fit wherever the chunks of each chunk
/// stream fit on their own.
pub proof fn law_chunks_may_be_interleaved(
    streams: Map<u32, ChunkStream>,
    chunks: Seq<Chunk>,
    max_chunk_size: nat,
)
    requires
        forall|csid: u32| all_fit(streams, #[trigger] chunks_on(chunks, csid), max_chunk_size),
    ensures
        all_fit(streams, chunks, max_chunk_size),
    decreases chunks.len(),
{
    if chunks.len() > 0 {
        let chunk = chunks[0];
        let others = chunks.drop_first();
        let next = passed_one(streams, chunk);
        assert(seq![chunk] + others =~= chunks);
        assert forall|csid: u32| all_fit(
            next,
            #[trigger] chunks_on(others, csid),
            max_chunk_size,
        ) by {
            let on_chunk = |chunk: Chunk| chunk.csid == csid;
            Seq::filter_distributes_over_add(seq![chunk], others, on_chunk);
            lemma_filter_one(chunk, on_chunk);
            let here = chunks_on(chunks, csid);
            if csid == chunk.csid {
                assert(here.drop_first() =~= chunks_on(others, csid));
            } else {
                assert(here =~= chunks_on(others, csid));
                assert forall|i: int| 0 <= i < here.len() implies (#[trigger] here[i]).csid
                    == csid by {
                    chunks.lemma_filter_pred(on_chunk, i);
                }
                lemma_fit_alone(streams, next, here, csid, max_chunk_size);
            }
        }
        law_chunks_may_be_interleaved(next, others, max_chunk_size);
        let on_chunk = |other: Chunk| other.csid == chunk.csid;
        Seq::filter_distributes_over_add(seq![chunk], others, on_chunk);
        lemma_filter_one(chunk, on_chunk);
        assert(chunks_on(chunks, chunk.csid)[0] == chunk);
    }
}

/// Where no call reports an error, none of the chunks is lost.
proof fn lemma_lost_chunks_are_reported(s: Deserializer, chunks: Seq<Chunk>, rest: Seq<u8>)
    requires
        s.valid(),
        s.stage is Csid,
        all_fit(streams_of(s), chunks, s.max_chunk_size),
        s.buffer == all_bytes(streams_of(s), chunks) + rest,
        drained(s).lost is None,
    ensures
        none_is_lost(streams_of(s), chunks, s.errors),
    decreases chunks.len(),
{
    if chunks.len() > 0 {
        let streams = streams_of(s);
        let chunk = chunks[0];
        let behind = all_bytes(passed_one(streams, chunk), chunks.drop_first()) + rest;
        assert(s.buffer =~= chunk.bytes(stream_of(s, chunk.csid)) + behind);
        if chunk.row(streams[chunk.csid], s.errors) >= MAX_CONSECUTIVE_ERRORS {
            law_lost_chunks_are_not_read(s, chunk, behind);
        } else {
            law_chunks_are_read_back(s, chunk, behind);
            lemma_received_streams(s, chunk, behind);
            lemma_lost_chunks_are_reported(received(s, chunk, behind), chunks.drop_first(), rest);
        }
    }
}

/// Chunks are lost if and only if a call reports an error.
pub proof fn law_errors_are_lost_chunks(s: Deserializer, chunks: Seq<Chunk>)
    requires
        s.valid(),
        s.stage is Csid,
        all_fit(streams_of(s), chunks, s.max_chunk_size),
        s.buffer == all_bytes(streams_of(s), chunks),
    ensures
        drained(s).lost is None <==> none_is_lost(streams_of(s), chunks, s.errors),
        drained(s).lost is None ==> drained(s).messages == messages_of(
            deliveries(streams_of(s), chunks),
        ),
{
    assert(s.buffer =~= all_bytes(streams_of(s), chunks) + Seq::empty());
    if drained(s).lost is None {
        lemma_lost_chunks_are_reported(s, chunks, Seq::empty());
    }
    if none_is_lost(streams_of(s), chunks, s.errors) {
        let t = law_connections_are_read_back(s, chunks, Seq::empty());
        assert(drained(t).lost is None && drained(t).messages =~= Seq::empty());
        assert(drained(s).messages =~= messages_of(deliveries(streams_of(s), chunks)));
    }
}

/// A deserializer reads chunks of several chunk streams, however they are interleaved.
/// Where no call reports an error, the messages that a chunk stream delivers among the
/// others are those that its chunks give from the same state alone, in the same order.
/// This holds also where a chunk stream begins with a chunk that lacks a predecessor.
pub proof fn law_interleaving_does_not_matter(s: Deserializer, chunks: Seq<Chunk>, csid: u32)
    requires
        s.valid(),
        s.stage is Csid,
        all_fit(streams_of(s), chunks, s.max_chunk_size),
        s.buffer == all_bytes(streams_of(s), chunks),
        drained(s).lost is None,
        drained(read_alone(s, chunks, csid)).lost is None,
    ensures
        drained(s).messages == messages_of(deliveries(streams_of(s), chunks)),
        drained(read_alone(s, chunks, csid)).messages == messages_of(
            deliveries_on(deliveries(streams_of(s), chunks), csid),
        ),
{
    let alone = read_alone(s, chunks, csid);
    let streams = streams_of(s);
    assert(streams_of(alone) =~= streams);
    law_streams_are_independent(streams, streams, chunks, csid, s.max_chunk_size);
    law_errors_are_lost_chunks(s, chunks);
    law_errors_are_lost_chunks(alone, chunks_on(chunks, csid));
}

/// The same deserializer, with only the chunks of one chunk stream to read.
pub open spec fn read_alone(s: Deserializer, chunks: Seq<Chunk>, csid: u32) -> Deserializer {
    Deserializer { buffer: all_bytes(streams_of(s), chunks_on(chunks, csid)), ..s }
}

/// Chunks that follow on chunks: what they deliver together.
pub proof fn law_deliveries_add_up(
    streams: Map<u32, ChunkStream>,
    chunks: Seq<Chunk>,
    more: Seq<Chunk>,
    max_chunk_size: nat,
    before: u32,
)
    ensures
        all_fit(streams, chunks + more, max_chunk_size) <==> all_fit(
            streams,
            chunks,
            max_chunk_size,
        ) && all_fit(passed_all(streams, chunks), more, max_chunk_size),
        all_bytes(streams, chunks + more) == all_bytes(streams, chunks) + all_bytes(
            passed_all(streams, chunks),
            more,
        ),
        deliveries(streams, chunks + more) == deliveries(streams, chunks) + deliveries(
            passed_all(streams, chunks),
            more,
        ),
        passed_all(streams, chunks + more) == passed_all(passed_all(streams, chunks), more),
        none_is_lost(streams, chunks + more, before) <==> none_is_lost(streams, chunks, before)
            && none_is_lost(
            passed_all(streams, chunks),
            more,
            row_after(streams, chunks, before),
        ),
        row_after(streams, chunks + more, before) == row_after(
            passed_all(streams, chunks),
            more,
            row_after(streams, chunks, before),
        ),
    decreases chunks.len(),
{
    if chunks.len() == 0 {
        assert(chunks + more =~= more);
    } else {
        let others = chunks.drop_first();
        assert((chunks + more).drop_first() =~= others + more);
        law_deliveries_add_up(
            passed_one(streams, chunks[0]),
            others,
            more,
            max_chunk_size,
            chunks[0].row(streams[chunks[0].csid], before),
        );
    }
}

/// The chunks that go on with a message, of which `data` is left to be sent.
pub open spec fn continuation_chunks(first: Chunk, data: Seq<u8>, max_chunk_size: nat) -> Seq<Chunk>
    decreases data.len(),
{
    if data.len() == 0 || max_chunk_size == 0 {
        Seq::empty()
    } else if data.len() <= max_chunk_size {
        seq![Chunk { format: ChunkHeaderFormat::Empty, data, ..first }]
    } else {
        seq![
            Chunk {
                format: ChunkHeaderFormat::Empty,
                data: data.take(max_chunk_size as int),
                ..first
            },
        ] + continuation_chunks(first, data.skip(max_chunk_size as int), max_chunk_size)
    }
}

/// A message cut into chunks.  `whole` is the chunk that would carry it if there
/// were no maximum chunk size; the chunks after the first have empty headers.
pub open spec fn message_chunks(whole: Chunk, max_chunk_size: nat) -> Seq<Chunk> {
    if whole.data.len() <= max_chunk_size {
        seq![whole]
    } else {
        seq![Chunk { data: whole.data.take(max_chunk_size as int), ..whole }]
            + continuation_chunks(
            whole,
            whole.data.skip(max_chunk_size as int),
            max_chunk_size,
        )
    }
}

/// `whole` carries a message that may come next on its chunk stream.
pub open spec fn may_be_sent(whole: Chunk, stream: ChunkStream, max_chunk_size: nat) -> bool {
    &&& can_name(whole.form, whole.csid)
    &&& whole.message_length < 0x100_0000
    &&& whole.format is Full || stream.last is Some
    &&& stream.gathered.len() == 0
    &&& whole.header(stream).message_length == whole.data.len()
    &&& whole.data.len() == 0 || max_chunk_size > 0
}

/// The chunks that go on with a message complete it, with the time, type and
/// message stream that it began with.
proof fn lemma_continuation_completes_message(
    streams: Map<u32, ChunkStream>,
    first: Chunk,
    data: Seq<u8>,
    max_chunk_size: nat,
)
    requires
        can_name(first.form, first.csid),
        first.message_length < 0x100_0000,
        max_chunk_size > 0,
        data.len() > 0,
        streams[first.csid].last is Some,
        streams[first.csid].last->0.chunk_stream_id == first.csid,
        streams[first.csid].gathered.len() > 0,
        streams[first.csid].gathered.len() + data.len()
            == streams[first.csid].last->0.message_length,
    ensures
        ({
            let chunks = continuation_chunks(first, data, max_chunk_size);
            let stream = streams[first.csid];
            let header = stream.last->0;
            &&& all_fit(streams, chunks, max_chunk_size)
            &&& deliveries(streams, chunks) == seq![
                Delivery {
                    csid: first.csid,
                    message: Message {
                        timestamp: header.timestamp,
                        type_id: header.message_type_id,
                        message_stream_id: header.message_stream_id,
                        data: stream.gathered + data,
                    },
                },
            ]
            &&& passed_all(streams, chunks) == streams.insert(
                first.csid,
                ChunkStream { last: stream.last, gathered: Seq::empty() },
            )
            &&& chunks.len() > 0
            &&& deliveries(streams, chunks.drop_last()) == Seq::<Delivery>::empty()
            &&& forall|before: u32| #[trigger] none_is_lost(streams, chunks, before)
            &&& forall|before: u32| #[trigger] row_after(streams, chunks, before) == 0
        }),
    decreases data.len(),
{
    let chunks = continuation_chunks(first, data, max_chunk_size);
    let stream = streams[first.csid];
    let chunk = chunks[0];
    let others = chunks.drop_first();
    let next = passed_one(streams, chunk);
    assert(chunk.header(stream) == stream.last->0);
    if data.len() <= max_chunk_size {
        assert(others =~= Seq::empty());
        assert(all_fit(next, others, max_chunk_size));
        assert(deliveries(next, others) =~= Seq::empty());
        assert(deliveries(streams, chunks) =~= delivery(streams, chunk));
        assert(passed_all(next, others) == next);
        assert(chunks.drop_last() =~= Seq::empty());
    } else {
        let left = data.skip(max_chunk_size as int);
        assert(others =~= continuation_chunks(first, left, max_chunk_size));
        assert(next[first.csid].gathered + left =~= stream.gathered + data);
        lemma_continuation_completes_message(next, first, left, max_chunk_size);
        assert(deliveries(streams, chunks) =~= deliveries(next, others));
        assert(chunks.drop_last().drop_first() =~= others.drop_last());
        assert(passed_all(streams, chunks) =~= streams.insert(
            first.csid,
            ChunkStream { last: stream.last, gathered: Seq::empty() },
        ));
    }
    assert(none_is_lost(next, others, 0) && row_after(next, others, 0) == 0);
    assert forall|before: u32| #[trigger] none_is_lost(streams, chunks, before) by {
        assert(chunk.row(stream, before) == 0);
    }
    assert forall|before: u32| #[trigger] row_after(streams, chunks, before) == 0 by {
        assert(chunk.row(stream, before) == 0);
    }
}

/// A message that is cut into chunks is delivered once, whole, as the one chunk
/// that would carry all of it would deliver it.  In particular, a time difference
/// counts once, however many chunks there are.
pub proof fn law_cut_messages_are_delivered(
    streams: Map<u32, ChunkStream>,
    whole: Chunk,
    max_chunk_size: nat,
)
    requires
        may_be_sent(whole, streams[whole.csid], max_chunk_size),
    ensures
        ({
            let chunks = message_chunks(whole, max_chunk_size);
            let stream = streams[whole.csid];
            &&& all_fit(streams, chunks, max_chunk_size)
            &&& deliveries(streams, chunks) == seq![
                Delivery { csid: whole.csid, message: whole.message(stream) },
            ]
            &&& whole.message(stream).data == whole.data
            &&& passed_all(streams, chunks) == streams.insert(
                whole.csid,
                ChunkStream { last: Some(whole.header(stream)), gathered: Seq::empty() },
            )
            &&& chunks.len() > 0
            &&& deliveries(streams, chunks.drop_last()) == Seq::<Delivery>::empty()
            &&& forall|before: u32| #[trigger] none_is_lost(streams, chunks, before)
            &&& forall|before: u32| #[trigger] row_after(streams, chunks, before) == 0
        }),
{
    let chunks = message_chunks(whole, max_chunk_size);
    let stream = streams[whole.csid];
    let chunk = chunks[0];
    let others = chunks.drop_first();
    let next = passed_one(streams, chunk);
    assert(stream.gathered =~= Seq::empty());
    assert(stream.gathered + whole.data =~= whole.data);
    assert(chunk.header(stream) == whole.header(stream));
    if whole.data.len() <= max_chunk_size {
        assert(others =~= Seq::empty());
        assert(all_fit(next, others, max_chunk_size));
        assert(deliveries(next, others) =~= Seq::empty());
        assert(deliveries(streams, chunks) =~= delivery(streams, chunk));
        assert(passed_all(next, others) == next);
        assert(chunks.drop_last() =~= Seq::empty());
    } else {
        let left = whole.data.skip(max_chunk_size as int);
        assert(others =~= continuation_chunks(whole, left, max_chunk_size));
        assert(next[whole.csid].gathered =~= chunk.data);
        assert(chunk.data + left =~= whole.data);
        lemma_continuation_completes_message(next, whole, left, max_chunk_size);
        assert(deliveries(streams, chunks) =~= deliveries(next, others));
        assert(chunks.drop_last().drop_first() =~= others.drop_last());
        assert(passed_all(streams, chunks) =~= streams.insert(
            whole.csid,
            ChunkStream { last: Some(whole.header(stream)), gathered: Seq::empty() },
        ));
    }
    assert(none_is_lost(next, others, 0) && row_after(next, others, 0) == 0);
    assert forall|before: u32| #[trigger] none_is_lost(streams, chunks, before) by {
        assert(chunk.row(stream, before) == 0);
    }
    assert forall|before: u32| #[trigger] row_after(streams, chunks, before) == 0 by {
        assert(chunk.row(stream, before) == 0);
    }
}

/// Chunks of which only the last one completes a message: the next call returns it.
proof fn lemma_last_chunk_delivers(s: Deserializer, chunks: Seq<Chunk>, rest: Seq<u8>)
    requires
        s.valid(),
        s.stage is Csid,
        chunks.len() > 0,
        all_fit(streams_of(s), chunks, s.max_chunk_size),
        none_is_lost(streams_of(s), chunks, s.errors),
        s.buffer == all_bytes(streams_of(s), chunks) + rest,
        deliveries(streams_of(s), chunks.drop_last()) == Seq::<Delivery>::empty(),
        deliveries(streams_of(s), chunks).len() == 1,
    ensures
        ({
            let (outcome, t) = next_message(s);
            &&& outcome == Outcome::Complete(deliveries(streams_of(s), chunks)[0].message)
            &&& t.valid()
            &&& t.stage is Csid
            &&& t.buffer == rest
            &&& t.max_chunk_size == s.max_chunk_size
            &&& t.errors == row_after(streams_of(s), chunks, s.errors)
            &&& streams_of(t) == passed_all(streams_of(s), chunks)
        }),
    decreases chunks.len(),
{
    let streams = streams_of(s);
    let chunk = chunks[0];
    let others = chunks.drop_first();
    let next = passed_one(streams, chunk);
    let behind = all_bytes(next, others) + rest;
    assert(s.buffer =~= chunk.bytes(stream_of(s, chunk.csid)) + behind);
    law_chunks_are_read_back(s, chunk, behind);
    lemma_received_streams(s, chunk, behind);
    if others.len() == 0 {
        assert(behind =~= rest);
        assert(deliveries(next, others) =~= Seq::empty());
        assert(passed_all(next, others) == next);
        assert(row_after(next, others, chunk.row(streams[chunk.csid], s.errors)) == chunk.row(
            streams[chunk.csid],
            s.errors,
        ));
    } else {
        assert(chunks.drop_last().drop_first() =~= others.drop_last());
        assert(deliveries(streams, chunks.drop_last()) =~= delivery(streams, chunk) + deliveries(
            next,
            others.drop_last(),
        ));
        assert(delivery(streams, chunk).len() == 0);
        assert(deliveries(next, others.drop_last()) =~= Seq::empty());
        assert(deliveries(streams, chunks) =~= deliveries(next, others));
        lemma_last_chunk_delivers(received(s, chunk, behind), others, rest);
    }
}

/// A message that is written is read back.  Between two chunks, a deserializer that
/// is given a message, cut into chunks of the maximum size that it expects, returns
/// this message from the next call and leaves what comes behind it unread.  It takes
/// note of the message's header, and no other chunk stream is affected.
pub proof fn law_messages_are_read_back(s: Deserializer, whole: Chunk, rest: Seq<u8>)
    requires
        s.valid(),
        s.stage is Csid,
        may_be_sent(whole, stream_of(s, whole.csid), s.max_chunk_size),
        s.buffer == all_bytes(streams_of(s), message_chunks(whole, s.max_chunk_size)) + rest,
    ensures
        ({
            let stream = stream_of(s, whole.csid);
            let (outcome, t) = next_message(s);
            &&& outcome == Outcome::Complete(
                Message {
                    timestamp: whole.message_time(stream),
                    type_id: whole.header(stream).message_type_id,
                    message_stream_id: whole.header(stream).message_stream_id,
                    data: whole.data,
                },
            )
            &&& t.valid()
            &&& t.stage is Csid
            &&& t.buffer == rest
            &&& t.max_chunk_size == s.max_chunk_size
            &&& t.errors == 0
            &&& streams_of(t) == streams_of(s).insert(
                whole.csid,
                ChunkStream { last: Some(whole.header(stream)), gathered: Seq::empty() },
            )
            &&& outcome matches Outcome::Complete(message)
            &&& message.data == whole.data
            &&& whole.format is Full ==> {
                &&& message.timestamp.value == whole.time
                &&& message.type_id == whole.message_type_id
                &&& message.message_stream_id == whole.message_stream_id
            }
            &&& !(whole.format is Full) ==> message.message_stream_id
                == stream.last->0.message_stream_id
            &&& whole.format is TimeDeltaWithoutMessageStreamId ==> message.type_id
                == whole.message_type_id
            &&& whole.format is TimeDeltaOnly || whole.format is Empty ==> {
                &&& message.type_id == stream.last->0.message_type_id
                &&& message.data.len() == stream.last->0.message_length
            }
            &&& whole.format is TimeDeltaWithoutMessageStreamId || whole.format is TimeDeltaOnly
                ==> message.timestamp.value == (stream.last->0.timestamp.value + whole.time)
                % 0x1_0000_0000
            &&& whole.format is Empty ==> message.timestamp.value == (
            stream.last->0.timestamp.value + if stream.last->0.timestamp_field < 0xff_ffff {
                stream.last->0.timestamp_field
            } else {
                whole.time
            }) % 0x1_0000_0000
            &&& t.previous[whole.csid].chunk_stream_id == whole.csid
            &&& t.previous[whole.csid].timestamp == message.timestamp
            &&& t.previous[whole.csid].message_length == message.data.len()
            &&& t.previous[whole.csid].message_type_id == message.type_id
            &&& t.previous[whole.csid].message_stream_id == message.message_stream_id
            &&& t.previous[whole.csid].timestamp_field == if whole.format is Empty {
                stream.last->0.timestamp_field
            } else if whole.wide || whole.time >= 0xff_ffff {
                0xff_ffff
            } else {
                whole.time
            }
        }),
{
    law_cut_messages_are_delivered(streams_of(s), whole, s.max_chunk_size);
    lemma_last_chunk_delivers(s, message_chunks(whole, s.max_chunk_size), rest);
    let t = next_message(s).1;
    assert(streams_of(t)[whole.csid] == stream_of(t, whole.csid));
}

/// Two messages, one after the other on the same chunk stream, the second without a
/// full header.  It is on the same message stream as the first.  What its header
/// leaves out of length and type is the same too.  It comes as much later as its header
/// says; if that says nothing, the time that the header of the first gave counts again.
pub proof fn law_messages_build_on_each_other(
    s: Deserializer,
    first: Chunk,
    second: Chunk,
    rest: Seq<u8>,
)
    requires
        s.valid(),
        s.stage is Csid,
        second.csid == first.csid,
        !(second.format is Full),
        may_be_sent(first, stream_of(s, first.csid), s.max_chunk_size),
        may_be_sent(
            second,
            passed_message(streams_of(s), first)[second.csid],
            s.max_chunk_size,
        ),
        s.buffer == all_bytes(streams_of(s), message_chunks(first, s.max_chunk_size)) + (all_bytes(
            passed_message(streams_of(s), first),
            message_chunks(second, s.max_chunk_size),
        ) + rest),
    ensures
        ({
            let (first_outcome, t) = next_message(s);
            let (second_outcome, u) = next_message(t);
            &&& first_outcome matches Outcome::Complete(one)
            &&& second_outcome matches Outcome::Complete(two)
            &&& u.buffer == rest
            &&& one.data == first.data
            &&& two.data == second.data
            &&& two.message_stream_id == one.message_stream_id
            &&& second.format is TimeDeltaWithoutMessageStreamId ==> two.type_id
                == second.message_type_id
            &&& second.format is TimeDeltaOnly || second.format is Empty ==> {
                &&& two.type_id == one.type_id
                &&& two.data.len() == one.data.len()
            }
            &&& !(second.format is Empty) ==> two.timestamp.value == (one.timestamp.value
                + second.time) % 0x1_0000_0000
            &&& second.format is Empty && !(first.format is Empty) && !first.wide && first.time
                < 0xff_ffff ==> two.timestamp.value == (one.timestamp.value + first.time)
                % 0x1_0000_0000
            &&& second.format is Empty && !(first.format is Empty) && (first.wide || first.time
                >= 0xff_ffff) ==> two.timestamp.value == (one.timestamp.value + second.time)
                % 0x1_0000_0000
        }),
{
    let behind = all_bytes(
        passed_message(streams_of(s), first),
        message_chunks(second, s.max_chunk_size),
    ) + rest;
    law_messages_are_read_back(s, first, behind);
    let t = next_message(s).1;
    assert(streams_of(t) == passed_message(streams_of(s), first));
    assert(streams_of(t)[second.csid] == stream_of(t, second.csid));
    law_messages_are_read_back(t, second, rest);
}

/// Three messages, one after the other on the same chunk stream, of which the last two
/// have empty headers: they come at equal distances, where 24 bits give the distance.
pub proof fn law_empty_headers_keep_the_pace(
    s: Deserializer,
    first: Chunk,
    second: Chunk,
    third: Chunk,
    rest: Seq<u8>,
)
    requires
        s.valid(),
        s.stage is Csid,
        second.csid == first.csid,
        third.csid == first.csid,
        !(first.format is Empty),
        !first.wide,
        first.time < 0xff_ffff,
        second.format is Empty,
        third.format is Empty,
        may_be_sent(first, stream_of(s, first.csid), s.max_chunk_size),
        ({
            let after_first = passed_message(streams_of(s), first);
            let after_second = passed_message(after_first, second);
            &&& may_be_sent(second, after_first[first.csid], s.max_chunk_size)
            &&& may_be_sent(third, after_second[first.csid], s.max_chunk_size)
            &&& s.buffer == all_bytes(streams_of(s), message_chunks(first, s.max_chunk_size)) + (
            all_bytes(after_first, message_chunks(second, s.max_chunk_size)) + (all_bytes(
                after_second,
                message_chunks(third, s.max_chunk_size),
            ) + rest))
        }),
    ensures
        ({
            let (first_outcome, t) = next_message(s);
            let (second_outcome, u) = next_message(t);
            let (third_outcome, v) = next_message(u);
            &&& first_outcome matches Outcome::Complete(one)
            &&& second_outcome matches Outcome::Complete(two)
            &&& third_outcome matches Outcome::Complete(three)
            &&& v.buffer == rest
            &&& two.timestamp.value == (one.timestamp.value + first.time) % 0x1_0000_0000
            &&& three.timestamp.value == (two.timestamp.value + first.time) % 0x1_0000_0000
            &&& one.type_id == two.type_id && two.type_id == three.type_id
            &&& one.message_stream_id == two.message_stream_id && two.message_stream_id
                == three.message_stream_id
        }),
{
    let after_first = passed_message(streams_of(s), first);
    let after_second = passed_message(after_first, second);
    let behind = all_bytes(after_second, message_chunks(third, s.max_chunk_size)) + rest;
    law_messages_build_on_each_other(s, first, second, behind);
    law_messages_are_read_back(
        s,
        first,
        all_bytes(after_first, message_chunks(second, s.max_chunk_size)) + behind,
    );
    let t = next_message(s).1;
    assert(streams_of(t) == after_first);
    assert(streams_of(t)[second.csid] == stream_of(t, second.csid));
    law_messages_are_read_back(t, second, behind);
    let u = next_message(t).1;
    assert(streams_of(u) == after_second);
    assert(streams_of(u)[third.csid] == stream_of(u, third.csid));
    law_messages_are_read_back(u, third, rest);
}

/// A message whose chunks are interleaved with the chunks of other chunk streams
/// is delivered once and whole, and is the only one that its chunk stream delivers.
pub proof fn law_interleaved_messages_stay_whole(
    streams: Map<u32, ChunkStream>,
    chunks: Seq<Chunk>,
    whole: Chunk,
    max_chunk_size: nat,
)
    requires
        may_be_sent(whole, streams[whole.csid], max_chunk_size),
        chunks_on(chunks, whole.csid) == message_chunks(whole, max_chunk_size),
        forall|csid: u32| all_fit(streams, #[trigger] chunks_on(chunks, csid), max_chunk_size),
    ensures
        all_fit(streams, chunks, max_chunk_size),
        deliveries_on(deliveries(streams, chunks), whole.csid) == seq![
            Delivery { csid: whole.csid, message: whole.message(streams[whole.csid]) },
        ],
        whole.message(streams[whole.csid]).data == whole.data,
{
    law_chunks_may_be_interleaved(streams, chunks, max_chunk_size);
    law_streams_are_independent(streams, streams, chunks, whole.csid, max_chunk_size);
    law_cut_messages_are_delivered(streams, whole, max_chunk_size);
}

/// The chunk streams after a message.
pub open spec fn passed_message(streams: Map<u32, ChunkStream>, whole: Chunk) -> Map<
    u32,
    ChunkStream,
> {
    streams.insert(
        whole.csid,
        ChunkStream { last: Some(whole.header(streams[whole.csid])), gathered: Seq::empty() },
    )
}

/// The messages may be sent one after the other.
pub open spec fn all_may_be_sent(
    streams: Map<u32, ChunkStream>,
    wholes: Seq<Chunk>,
    max_chunk_size: nat,
) -> bool
    decreases wholes.len(),
{
    wholes.len() > 0 ==> {
        &&& may_be_sent(wholes[0], streams[wholes[0].csid], max_chunk_size)
        &&& all_may_be_sent(passed_message(streams, wholes[0]), wholes.drop_first(), max_chunk_size)
    }
}

/// The chunks of messages that are sent one after the other.
pub open spec fn all_message_chunks(wholes: Seq<Chunk>, max_chunk_size: nat) -> Seq<Chunk>
    decreases wholes.len(),
{
    if wholes.len() == 0 {
        Seq::empty()
    } else {
        message_chunks(wholes[0], max_chunk_size) + all_message_chunks(
            wholes.drop_first(),
            max_chunk_size,
        )
    }
}

/// The messages that are sent one after the other.
pub open spec fn all_messages(streams: Map<u32, ChunkStream>, wholes: Seq<Chunk>) -> Seq<Message>
    decreases wholes.len(),
{
    if wholes.len() == 0 {
        Seq::empty()
    } else {
        seq![wholes[0].message(streams[wholes[0].csid])] + all_messages(
            passed_message(streams, wholes[0]),
            wholes.drop_first(),
        )
    }
}

/// Messages that are sent one after the other fit, and are delivered in that order.
proof fn lemma_messages_are_delivered_in_order(
    streams: Map<u32, ChunkStream>,
    wholes: Seq<Chunk>,
    max_chunk_size: nat,
    before: u32,
)
    requires
        all_may_be_sent(streams, wholes, max_chunk_size),
    ensures
        none_is_lost(streams, all_message_chunks(wholes, max_chunk_size), before),
        all_fit(streams, all_message_chunks(wholes, max_chunk_size), max_chunk_size),
        messages_of(deliveries(streams, all_message_chunks(wholes, max_chunk_size)))
            == all_messages(streams, wholes),
    decreases wholes.len(),
{
    if wholes.len() == 0 {
        assert(messages_of(Seq::empty()) =~= Seq::empty());
    } else {
        let whole = wholes[0];
        let first = message_chunks(whole, max_chunk_size);
        let others = all_message_chunks(wholes.drop_first(), max_chunk_size);
        let next = passed_message(streams, whole);
        law_cut_messages_are_delivered(streams, whole, max_chunk_size);
        law_deliveries_add_up(streams, first, others, max_chunk_size, before);
        lemma_messages_are_delivered_in_order(next, wholes.drop_first(), max_chunk_size, 0);
        assert(messages_of(deliveries(streams, first + others)) =~= messages_of(
            deliveries(streams, first),
        ) + messages_of(deliveries(next, others)));
        assert(messages_of(deliveries(streams, first)) =~= seq![
            whole.message(streams[whole.csid]),
        ]);
    }
}

/// Messages that are written one after the other are read back one after the other,
/// one per call, until only what comes behind them is left.
pub proof fn law_messages_are_read_back_in_order(
    s: Deserializer,
    wholes: Seq<Chunk>,
    rest: Seq<u8>,
) -> (t: Deserializer)
    requires
        s.valid(),
        s.stage is Csid,
        all_may_be_sent(streams_of(s), wholes, s.max_chunk_size),
        s.buffer == all_bytes(streams_of(s), all_message_chunks(wholes, s.max_chunk_size)) + rest,
    ensures
        t.valid(),
        t.stage is Csid,
        t.buffer == rest,
        t.max_chunk_size == s.max_chunk_size,
        drained(s) == drained(t).preceded_by(all_messages(streams_of(s), wholes)),
        rest.len() == 0 ==> drained(s).messages == all_messages(streams_of(s), wholes),
{
    lemma_messages_are_delivered_in_order(streams_of(s), wholes, s.max_chunk_size, s.errors);
    let t = law_connections_are_read_back(s, all_message_chunks(wholes, s.max_chunk_size), rest);
    assert(rest.len() == 0 ==> drained(t).messages =~= Seq::empty());
    t
}

/// A peer may change the maximum chunk size behind a message.  As each call returns
/// one message and leaves the bytes behind it unread, the deserializer can be told in
/// time, and reads the next message in chunks of the new size.
pub proof fn law_chunk_size_may_change_between_messages(
    s: Deserializer,
    whole: Chunk,
    new_size: nat,
    next: Chunk,
    rest: Seq<u8>,
)
    requires
        s.valid(),
        s.stage is Csid,
        new_size <= LARGEST_CHUNK_SIZE,
        may_be_sent(whole, stream_of(s, whole.csid), s.max_chunk_size),
        may_be_sent(next, passed_message(streams_of(s), whole)[next.csid], new_size),
        s.buffer == all_bytes(streams_of(s), message_chunks(whole, s.max_chunk_size)) + (all_bytes(
            passed_message(streams_of(s), whole),
            message_chunks(next, new_size),
        ) + rest),
    ensures
        ({
            let (first_outcome, t) = next_message(s);
            let told = Deserializer { max_chunk_size: new_size, ..t };
            let (second_outcome, u) = next_message(told);
            &&& first_outcome == Outcome::Complete(whole.message(stream_of(s, whole.csid)))
            &&& second_outcome == Outcome::Complete(
                next.message(passed_message(streams_of(s), whole)[next.csid]),
            )
            &&& u.buffer == rest
        }),
{
    let streams = streams_of(s);
    let behind = all_bytes(passed_message(streams, whole), message_chunks(next, new_size)) + rest;
    law_cut_messages_are_delivered(streams, whole, s.max_chunk_size);
    law_messages_are_read_back(s, whole, behind);
    let t = next_message(s).1;
    let told = Deserializer { max_chunk_size: new_size, ..t };
    assert(streams_of(told) =~= streams_of(t));
    assert(streams_of(told) == passed_message(streams, whole));
    law_cut_messages_are_delivered(streams_of(told), next, new_size);
    law_messages_are_read_back(told, next, rest);
}

} // verus!
