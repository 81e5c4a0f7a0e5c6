//! What holds of every deserializer, whatever bytes it is given.

use vstd::prelude::*;

verus! {

use crate::byte_buffers::big_endian_32;
use crate::chunk_io::basic_header::basic_header;
use crate::chunk_io::chunk_header::ChunkHeader;
use crate::chunk_io::model::{
    chunk_data_size, next_message, parts_left, step, Deserializer, Outcome, ParseStage, Step,
    MAX_CONSECUTIVE_ERRORS, MAX_INITIAL_TIMESTAMP,
};
use crate::messages::Message;
use crate::time::RtmpTimestamp;

/// The deserializer that a step leaves behind.
pub open spec fn after(taken: Step) -> Deserializer {
    match taken {
        Step::Starved(t) => t,
        Step::Advanced(t) => t,
        Step::Delivered(_, t) => t,
        Step::Lost(_, t) => t,
    }
}

/// A step reads bytes, or else fewer parts of the chunk are left.
pub proof fn law_steps_make_progress(s: Deserializer)
    ensures
        step(s) matches Step::Advanced(t) ==> decreases_to!(
            s.buffer.len(), parts_left(s.stage) => t.buffer.len(), parts_left(t.stage)
        ),
{
}

/// A step keeps the invariant.
pub proof fn law_step_keeps_validity(s: Deserializer)
    requires
        s.valid(),
    ensures
        after(step(s)).valid(),
{
}

/// Reading the next message keeps the invariant.
pub proof fn law_next_message_keeps_validity(s: Deserializer)
    requires
        s.valid(),
    ensures
        next_message(s).1.valid(),
    decreases s.buffer.len(), parts_left(s.stage),
{
    law_step_keeps_validity(s);
    if let Step::Advanced(t) = step(s) {
        law_next_message_keeps_validity(t);
    }
}

/// A step reads bytes off the front of the buffer.
proof fn lemma_step_reads_prefix(s: Deserializer)
    ensures
        after(step(s)).buffer.is_suffix_of(s.buffer),
{
    assert(s.buffer =~= s.buffer.skip(0));
}

/// An end of an end is an end.
proof fn lemma_suffix_of_suffix(inner: Seq<u8>, middle: Seq<u8>, outer: Seq<u8>)
    requires
        inner.is_suffix_of(middle),
        middle.is_suffix_of(outer),
    ensures
        inner.is_suffix_of(outer),
{
    assert(inner =~= outer.subrange(outer.len() - inner.len(), outer.len() as int));
}

/// Bytes are read in order: what is left of them is their end.
pub proof fn law_rest_is_suffix(s: Deserializer)
    ensures
        next_message(s).1.buffer.is_suffix_of(s.buffer),
    decreases s.buffer.len(), parts_left(s.stage),
{
    lemma_step_reads_prefix(s);
    if let Step::Advanced(t) = step(s) {
        law_rest_is_suffix(t);
        lemma_suffix_of_suffix(next_message(s).1.buffer, t.buffer, s.buffer);
    }
}

/// Reading never changes the maximum chunk size, whatever the bytes say.
pub proof fn law_reading_keeps_chunk_size(s: Deserializer)
    ensures
        next_message(s).1.max_chunk_size == s.max_chunk_size,
    decreases s.buffer.len(), parts_left(s.stage),
{
    if let Step::Advanced(t) = step(s) {
        law_reading_keeps_chunk_size(t);
    }
}

/// A deserializer that waits for bytes has few of them: less than the longest part
/// of a header, or less than a chunk may carry.
pub proof fn law_waiting_leaves_few_bytes(s: Deserializer)
    requires
        next_message(s).0 is Waiting,
    ensures
        next_message(s).1.buffer.len() < 4 || next_message(s).1.buffer.len() < s.max_chunk_size,
    decreases s.buffer.len(), parts_left(s.stage),
{
    if let Step::Advanced(t) = step(s) {
        law_waiting_leaves_few_bytes(t);
    }
}

/// The front of a buffer, and what comes behind it, when more bytes follow.
proof fn lemma_front_and_rest(bytes: Seq<u8>, more: Seq<u8>, count: int)
    requires
        0 <= count <= bytes.len(),
    ensures
        (bytes + more).skip(count) == bytes.skip(count) + more,
        (bytes + more).take(count) == bytes.take(count),
{
    assert((bytes + more).skip(count) =~= bytes.skip(count) + more);
    assert((bytes + more).take(count) =~= bytes.take(count));
}

/// Bytes that come in are put behind those that have not been read, and change
/// nothing else.
pub proof fn law_bytes_are_only_kept(s: Deserializer, bytes: Seq<u8>)
    ensures
        s.fed(bytes).buffer == s.buffer + bytes,
        s.fed(bytes).max_chunk_size == s.max_chunk_size,
        s.fed(bytes).stage == s.stage,
        s.fed(bytes).format == s.format,
        s.fed(bytes).header == s.header,
        s.fed(bytes).pending == s.pending,
        s.fed(bytes).previous == s.previous,
        s.fed(bytes).errors == s.errors,
{
}

/// A step that found its part in the buffer finds the same part when more bytes
/// follow.
pub(crate) proof fn lemma_step_with_more_bytes(s: Deserializer, more: Seq<u8>)
    requires
        !(step(s) is Starved),
    ensures
        match step(s) {
            Step::Starved(t) => true,
            Step::Advanced(t) => step(s.fed(more)) == Step::Advanced(t.fed(more)),
            Step::Delivered(message, t) => step(s.fed(more)) == Step::Delivered(
                message,
                t.fed(more),
            ),
            Step::Lost(csid, t) => step(s.fed(more)) == Step::Lost(csid, t.fed(more)),
        },
{
    let bytes = s.buffer;
    match s.stage {
        ParseStage::Csid => {
            let size = basic_header(bytes)->0.size as int;
            lemma_front_and_rest(bytes, more, size);
            assert(basic_header(bytes + more) == basic_header(bytes));
        },
        ParseStage::MessagePayload => {
            let size = chunk_data_size(
                s.gathered().len(),
                s.header.message_length as nat,
                s.max_chunk_size,
            );
            lemma_front_and_rest(bytes, more, size as int);
        },
        _ => {
            if bytes.len() >= 1 {
                lemma_front_and_rest(bytes, more, 1);
            }
            if bytes.len() >= 3 {
                lemma_front_and_rest(bytes, more, 3);
            }
            if bytes.len() >= 4 {
                lemma_front_and_rest(bytes, more, 4);
            }
        },
    }
}

/// A step that did not find its part can be taken again once more bytes have come.
pub(crate) proof fn lemma_starved_step_with_more_bytes(s: Deserializer, more: Seq<u8>)
    requires
        step(s) is Starved,
    ensures
        step(after(step(s)).fed(more)) == step(s.fed(more)),
{
}

/// It makes no difference when bytes come in.  Where `s` was still waiting, the
/// bytes that follow have the effect they would have had together with the bytes
/// before; where it was not, they are left for the next call.
pub proof fn law_bytes_may_come_later(s: Deserializer, more: Seq<u8>)
    ensures
        match next_message(s) {
            (Outcome::Waiting, t) => next_message(t.fed(more)) == next_message(s.fed(more)),
            (outcome, t) => next_message(s.fed(more)) == (outcome, t.fed(more)),
        },
    decreases s.buffer.len(), parts_left(s.stage),
{
    if step(s) is Starved {
        lemma_starved_step_with_more_bytes(s, more);
    } else {
        lemma_step_with_more_bytes(s, more);
    }
    if let Step::Advanced(t) = step(s) {
        law_bytes_may_come_later(t, more);
    }
}

/// Only one message is read at a time: what comes behind it waits for the next call,
/// which reads it in chunks of the size that is known by then.
pub proof fn law_later_bytes_wait(s: Deserializer, more: Seq<u8>, new_size: nat)
    requires
        next_message(s).0 is Complete,
    ensures
        ({
            let (outcome, t) = next_message(s);
            let (outcome_of_all, u) = next_message(s.fed(more));
            &&& outcome_of_all == outcome
            &&& next_message(u) == next_message(t.fed(more))
            &&& next_message(Deserializer { max_chunk_size: new_size, ..u }) == next_message(
                (Deserializer { max_chunk_size: new_size, ..t }).fed(more),
            )
        }),
{
    law_bytes_may_come_later(s, more);
}

/// A deserializer that waits for bytes goes on waiting, unchanged, until they come.
pub proof fn law_waiting_is_stable(s: Deserializer)
    requires
        next_message(s).0 is Waiting,
    ensures
        next_message(next_message(s).1) == next_message(s),
{
    let t = next_message(s).1;
    law_bytes_may_come_later(s, Seq::empty());
    assert(s.fed(Seq::empty()) =~= s);
    assert(t.fed(Seq::empty()) =~= t);
}

/// What a caller gets who asks for messages until there are no more.
#[verifier::ext_equal]
pub struct Drained {
    /// The messages, in the order in which they were returned.
    pub messages: Seq<Message>,
    /// The chunk stream of the chunk that made no sense, where one did not.
    pub lost: Option<u32>,
    /// The deserializer afterwards.
    pub left: Deserializer,
}

impl Drained {
    /// The same, after messages that came before.
    pub open spec fn preceded_by(self, messages: Seq<Message>) -> Drained {
        Drained { messages: messages + self.messages, ..self }
    }
}

/// A message leaves the deserializer between two chunks, with fewer bytes to read
/// or fewer parts of a chunk.
pub proof fn law_messages_end_at_chunk_boundaries(s: Deserializer)
    requires
        next_message(s).0 is Complete,
    ensures
        next_message(s).1.stage is Csid,
        decreases_to!(
            s.buffer.len(), parts_left(s.stage)
            => next_message(s).1.buffer.len(), parts_left(next_message(s).1.stage)
        ),
    decreases s.buffer.len(), parts_left(s.stage),
{
    if let Step::Advanced(t) = step(s) {
        law_messages_end_at_chunk_boundaries(t);
    }
}

/// Messages are asked for until there are no more.
pub open spec fn drained(s: Deserializer) -> Drained
    decreases s.buffer.len(), parts_left(s.stage),
{
    match next_message(s) {
        (Outcome::Complete(message), t) => {
            proof {
                law_messages_end_at_chunk_boundaries(s);
            }
            drained(t).preceded_by(seq![message])
        },
        (Outcome::Waiting, t) => Drained { messages: Seq::empty(), lost: None, left: t },
        (Outcome::Lost(csid), t) => Drained { messages: Seq::empty(), lost: Some(csid), left: t },
    }
}

/// Bytes that come in two portions give the messages that they give together,
/// in the same order, and leave the same deserializer.
pub proof fn law_portions_do_not_matter(s: Deserializer, more: Seq<u8>)
    ensures
        drained(s).lost is None ==> drained(s.fed(more)) == drained(
            drained(s).left.fed(more),
        ).preceded_by(drained(s).messages),
        drained(s).lost is Some ==> drained(s.fed(more)) == (Drained {
            left: drained(s).left.fed(more),
            ..drained(s)
        }),
    decreases s.buffer.len(), parts_left(s.stage),
{
    law_bytes_may_come_later(s, more);
    if let (Outcome::Complete(message), t) = next_message(s) {
        law_messages_end_at_chunk_boundaries(s);
        law_portions_do_not_matter(t, more);
        if drained(t).lost is None {
            assert(drained(s.fed(more)) =~= drained(drained(s).left.fed(more)).preceded_by(
                drained(s).messages,
            ));
        } else {
            assert(drained(s.fed(more)) =~= (Drained {
                left: drained(s).left.fed(more),
                ..drained(s)
            }));
        }
    } else if next_message(s).0 is Waiting {
        let t = next_message(s).1;
        assert(drained(s.fed(more)) == drained(t.fed(more)));
        assert(drained(t.fed(more)).preceded_by(Seq::empty()) =~= drained(t.fed(more)));
    }
}

/// The bytes come in one portion after the other, and each time messages are asked
/// for until there are no more.
pub open spec fn drained_in_portions(s: Deserializer, portions: Seq<Seq<u8>>) -> Drained
    decreases portions.len(),
{
    if portions.len() == 0 {
        Drained { messages: Seq::empty(), lost: None, left: s }
    } else {
        let first = drained(s.fed(portions[0]));
        if first.lost is Some {
            first
        } else {
            drained_in_portions(first.left, portions.drop_first()).preceded_by(first.messages)
        }
    }
}

/// However the bytes of a connection are cut into portions, they give the same
/// messages in the same order, and the same deserializer is left in the end.
pub proof fn law_any_portions_do(s: Deserializer, portions: Seq<Seq<u8>>)
    requires
        portions.len() > 0,
        drained(s.fed(portions.flatten())).lost is None,
    ensures
        drained_in_portions(s, portions) == drained(s.fed(portions.flatten())),
    decreases portions.len(),
{
    let rest = portions.drop_first();
    let first = drained(s.fed(portions[0]));
    assert(s.fed(portions.flatten()) =~= s.fed(portions[0]).fed(rest.flatten()));
    law_portions_do_not_matter(s.fed(portions[0]), rest.flatten());
    if rest.len() == 0 {
        assert(first.left.fed(rest.flatten()) =~= first.left);
        law_drained_stays_drained(s.fed(portions[0]));
        assert(drained_in_portions(first.left, rest) =~= drained(first.left));
    } else {
        law_any_portions_do(first.left, rest);
    }
}

/// Once there are no more messages, asking again gives nothing and changes nothing.
pub proof fn law_drained_stays_drained(s: Deserializer)
    requires
        drained(s).lost is None,
    ensures
        drained(drained(s).left) == (Drained {
            messages: Seq::empty(),
            lost: None,
            left: drained(s).left,
        }),
    decreases s.buffer.len(), parts_left(s.stage),
{
    if next_message(s).0 is Complete {
        law_messages_end_at_chunk_boundaries(s);
        law_drained_stays_drained(next_message(s).1);
    } else {
        law_waiting_is_stable(s);
    }
}

/// The chunk stream that the part which is read next belongs to, if it can be told.
pub open spec fn stream_at_hand(s: Deserializer) -> Option<u32> {
    if s.stage is Csid {
        match basic_header(s.buffer) {
            Some(basic) => Some(basic.csid),
            None => None,
        }
    } else {
        Some(s.header.chunk_stream_id)
    }
}

/// Chunk streams do not mix: reading a part of a chunk changes neither the gathered
/// data nor the last header of any other chunk stream.
pub proof fn law_other_streams_are_untouched(s: Deserializer, csid: u32)
    requires
        s.valid(),
        stream_at_hand(s) != Some(csid),
    ensures
        after(step(s)).pending[csid] == s.pending[csid],
        after(step(s)).previous.contains_key(csid) == s.previous.contains_key(csid),
        s.previous.contains_key(csid) ==> after(step(s)).previous[csid] == s.previous[csid],
{
}

/// A chunk is at hand that builds on the last header of a chunk stream which has none.
pub open spec fn lacks_predecessor(s: Deserializer, csid: u32) -> bool {
    &&& s.stage is Csid
    &&& basic_header(s.buffer) matches Some(basic)
    &&& basic.csid == csid
    &&& !(basic.format is Full)
    &&& !s.previous.contains_key(csid)
}

/// A chunk without predecessor is read as if zeros came before it, as long as this
/// does not happen five times in a row.
pub proof fn law_missing_predecessor_is_made_up(s: Deserializer, csid: u32)
    requires
        lacks_predecessor(s, csid),
        s.errors + 1 < MAX_CONSECUTIVE_ERRORS,
    ensures
        step(s) matches Step::Advanced(t) && {
            &&& t.header == ChunkHeader::blank(csid)
            &&& t.errors == s.errors + 1
            &&& t.buffer == s.buffer.skip(basic_header(s.buffer)->0.size as int)
        },
{
}

/// The fifth chunk without predecessor in a row is reported.  No byte of it is
/// read, so that the report is repeated whenever a message is asked for.
pub proof fn law_lost_chunks_are_reported(s: Deserializer, csid: u32)
    requires
        lacks_predecessor(s, csid),
        MAX_CONSECUTIVE_ERRORS <= s.errors + 1 <= u32::MAX,
    ensures
        next_message(s).0 == Outcome::Lost(csid),
        next_message(s).1 == (Deserializer {
            errors: (s.errors + 1) as u32,
            format: basic_header(s.buffer)->0.format,
            ..s
        }),
        lacks_predecessor(next_message(s).1, csid),
{
}

/// A chunk whose predecessor is known ends a row of chunks without.
pub proof fn law_known_predecessor_ends_row(s: Deserializer)
    requires
        s.stage is Csid,
        basic_header(s.buffer) is Some,
        !(basic_header(s.buffer)->0.format is Full),
        s.previous.contains_key(basic_header(s.buffer)->0.csid),
    ensures
        step(s) matches Step::Advanced(t) && {
            &&& t.header == s.previous[basic_header(s.buffer)->0.csid]
            &&& t.errors == 0
        },
{
}

/// A full header, which needs no predecessor, ends a row of chunks without, too.
pub proof fn law_full_header_ends_row(s: Deserializer)
    requires
        s.stage is Csid,
        basic_header(s.buffer) is Some,
        basic_header(s.buffer)->0.format is Full,
    ensures
        step(s) matches Step::Advanced(t) && {
            &&& t.header == ChunkHeader::blank(basic_header(s.buffer)->0.csid)
            &&& t.errors == 0
        },
{
}

/// Nothing but a chunk without predecessor is ever reported, and only at the end of
/// a row of five.
pub proof fn law_only_lost_chunks_are_reported(s: Deserializer)
    requires
        next_message(s).0 is Lost,
    ensures
        next_message(s).1.errors >= MAX_CONSECUTIVE_ERRORS,
        lacks_predecessor(next_message(s).1, next_message(s).0->Lost_0),
        next_message(s).1.format == basic_header(next_message(s).1.buffer)->0.format,
    decreases s.buffer.len(), parts_left(s.stage),
{
    if let Step::Advanced(t) = step(s) {
        law_only_lost_chunks_are_reported(t);
    }
}

/// A report is repeated, whatever bytes come in, and changes nothing but the count.
pub proof fn law_reports_are_repeated(s: Deserializer, more: Seq<u8>)
    requires
        next_message(s).0 is Lost,
        next_message(s).1.errors < u32::MAX,
    ensures
        ({
            let (outcome, t) = next_message(s);
            next_message(t.fed(more)) == (
                outcome,
                Deserializer { errors: (t.errors + 1) as u32, ..t.fed(more) },
            )
        }),
{
    let (outcome, t) = next_message(s);
    law_only_lost_chunks_are_reported(s);
    assert(basic_header(t.buffer + more) == basic_header(t.buffer));
    law_lost_chunks_are_reported(t.fed(more), outcome->Lost_0);
}

/// Where a message begins, an extended time difference counts once: the 24 bits that
/// announce it have been added by the time it is read, and are taken off again.
pub proof fn law_extended_difference_counts_once(s: Deserializer, before: RtmpTimestamp)
    requires
        s.stage is ExtendedTimestamp,
        !(s.format is Full),
        s.header.timestamp_field == MAX_INITIAL_TIMESTAMP,
        s.header.timestamp == before.plus(MAX_INITIAL_TIMESTAMP as int),
        s.gathered().len() == 0,
        s.buffer.len() >= 4,
    ensures
        step(s) matches Step::Advanced(t) && {
            &&& t.header.timestamp == before.plus(big_endian_32(s.buffer) as int)
            &&& t.header.timestamp_field == MAX_INITIAL_TIMESTAMP
            &&& t.buffer == s.buffer.skip(4)
        },
{
}

/// Between two chunks, data is kept of unfinished messages only: their chunk stream
/// has had a chunk, whose header says that there is more to come.
pub proof fn law_only_unfinished_messages_are_pending(s: Deserializer, csid: u32)
    requires
        s.valid(),
        s.stage is Csid,
        s.pending[csid].len() > 0,
    ensures
        s.previous.contains_key(csid),
        s.previous[csid].chunk_stream_id == csid,
        s.pending[csid].len() < s.previous[csid].message_length,
{
}

/// A message that is returned is as long as the last header of one of the chunk
/// streams says, has that header's time, type and message stream, and leaves no data
/// behind on that chunk stream.
pub proof fn law_messages_match_their_headers(s: Deserializer) -> (csid: u32)
    requires
        next_message(s).0 is Complete,
    ensures
        ({
            let (outcome, t) = next_message(s);
            let message = outcome->Complete_0;
            &&& t.previous.contains_key(csid)
            &&& t.pending[csid] == Seq::<u8>::empty()
            &&& message.data.len() == t.previous[csid].message_length
            &&& message.timestamp == t.previous[csid].timestamp
            &&& message.type_id == t.previous[csid].message_type_id
            &&& message.message_stream_id == t.previous[csid].message_stream_id
        }),
    decreases s.buffer.len(), parts_left(s.stage),
{
    if let Step::Advanced(t) = step(s) {
        law_messages_match_their_headers(t)
    } else {
        s.header.chunk_stream_id
    }
}

} // verus!
