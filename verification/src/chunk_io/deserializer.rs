//! Turning the bytes of a connection into messages.

use crate::byte_buffers::{
    as_slice, bytes_contents, bytes_mut_contents, read_u24_big_endian, read_u32_big_endian,
    read_u32_little_endian, remaining_mut,
};
use crate::chunk_io::basic_header::{get_csid, get_format, ParsedValue};
use crate::chunk_io::chunk_header::{ChunkHeader, ChunkHeaderFormat};
use crate::chunk_io::deserialization_errors::ChunkDeserializationError;
use crate::chunk_io::model::{
    ParseStage, LARGEST_CHUNK_SIZE, MAX_CONSECUTIVE_ERRORS, MAX_INITIAL_TIMESTAMP,
};
use crate::messages::MessagePayload;
use bytes::BytesMut;
use std::collections::HashMap;
use vstd::prelude::*;

verus! {

use crate::chunk_io::model::{
    basic_header_step, extended_timestamp_step, initial_timestamp_step, joined, message_length_step,
    message_payload_step, message_stream_id_step, message_type_id_step, next_message, parts_left,
    step, Deserializer, Outcome, Step,
};

const INITIAL_MAX_CHUNK_SIZE: usize = 128;

/// Turns the bytes of a connection into RTMP messages.
///
/// Chunks rely on the chunks before them, so every byte of the connection has to
/// go through the same deserializer.
pub struct ChunkDeserializer {
    max_chunk_size: usize,
    current_header_format: ChunkHeaderFormat,
    current_header: ChunkHeader,
    current_stage: ParseStage,
    current_payload: MessagePayload,
    /// The data of each chunk stream's message that is not complete yet.  Chunks
    /// of several chunk streams may be interleaved.
    csid_payload_data: HashMap<u32, BytesMut>,
    buffer: BytesMut,
    previous_headers: HashMap<u32, ChunkHeader>,
    /// How many chunks in a row missed the chunk that they build on.
    consecutive_errors: u32,
}

#[derive(Clone, Copy, Debug, PartialEq, Eq, Structural)]
enum ParseStageResult {
    Success,
    NotEnoughBytes,
}

impl View for ChunkDeserializer {
    type V = Deserializer;

    closed spec fn view(&self) -> Deserializer {
        Deserializer {
            max_chunk_size: self.max_chunk_size as nat,
            stage: self.current_stage,
            format: self.current_header_format,
            header: self.current_header,
            buffer: bytes_mut_contents(self.buffer),
            pending: pending_data(self.csid_payload_data@),
            previous: self.previous_headers@,
            errors: self.consecutive_errors,
        }
    }
}

/// The data that each chunk stream has gathered, which is none where there is no buffer.
spec fn pending_data(buffers: Map<u32, BytesMut>) -> Map<u32, Seq<u8>> {
    Map::total(
        |csid: u32|
            if buffers.contains_key(csid) {
                bytes_mut_contents(buffers[csid])
            } else {
                Seq::empty()
            },
    )
}

/// The result of reading a part of a chunk, and the deserializer after it, are
/// those of a step that does not complete a message.
spec fn agrees_with_step(
    result: Result<ParseStageResult, ChunkDeserializationError>,
    after: Deserializer,
    taken: Step,
) -> bool {
    match taken {
        Step::Starved(t) => result == Ok::<
            ParseStageResult,
            ChunkDeserializationError,
        >(ParseStageResult::NotEnoughBytes) && after == t,
        Step::Advanced(t) => result == Ok::<ParseStageResult, ChunkDeserializationError>(
            ParseStageResult::Success,
        ) && after == t,
        Step::Lost(csid, t) => result == Err::<ParseStageResult, ChunkDeserializationError>(
            ChunkDeserializationError::NoPreviousChunkOnStream { csid },
        ) && after == t,
        Step::Delivered(_, _) => false,
    }
}

/// The same of a part that may complete a message, which is then returned.
spec fn agrees_with_reading(
    result: Result<ParseStageResult, ChunkDeserializationError>,
    returned: Option<MessagePayload>,
    after: Deserializer,
    taken: Step,
) -> bool {
    match taken {
        Step::Delivered(message, t) => {
            &&& result == Ok::<ParseStageResult, ChunkDeserializationError>(
                ParseStageResult::Success,
            )
            &&& returned matches Some(payload)
            &&& payload@ == message
            &&& after == t
        },
        _ => agrees_with_step(result, after, taken) && returned is None,
    }
}

/// A call that returned `result` reported `outcome`.
pub open spec fn reports(
    result: Result<Option<MessagePayload>, ChunkDeserializationError>,
    outcome: Outcome,
) -> bool {
    match outcome {
        Outcome::Waiting => result matches Ok(None),
        Outcome::Complete(message) => result matches Ok(Some(payload)) && payload@ == message,
        Outcome::Lost(csid) => result == Err::<Option<MessagePayload>, ChunkDeserializationError>(
            ChunkDeserializationError::NoPreviousChunkOnStream { csid },
        ),
    }
}

impl ChunkDeserializer {
    /// The invariant that every operation keeps.
    pub open spec fn wf(&self) -> bool {
        &&& self@.valid()
        &&& self.keeps_unfinished_messages_only()
    }

    /// There is a buffer for unfinished messages only, and possibly for the one whose
    /// chunk is being read.
    pub closed spec fn keeps_unfinished_messages_only(&self) -> bool {
        forall|csid: u32| #[trigger]
            self.csid_payload_data@.contains_key(csid) && (self.current_stage is Csid || csid
                != self.current_header.chunk_stream_id) ==> self@.unfinished(csid)
    }

    /// A deserializer at the start of a connection, which expects chunks of at
    /// most 128 bytes of data.
    pub fn new() -> (deserializer: ChunkDeserializer)
        ensures
            deserializer.wf(),
            deserializer@ == (Deserializer {
                max_chunk_size: 128,
                stage: ParseStage::Csid,
                format: ChunkHeaderFormat::Full,
                header: ChunkHeader::blank(0),
                buffer: Seq::empty(),
                pending: Map::total(|csid: u32| Seq::empty()),
                previous: Map::empty(),
                errors: 0,
            }),
    {
        let deserializer = ChunkDeserializer {
            max_chunk_size: INITIAL_MAX_CHUNK_SIZE,
            current_header_format: ChunkHeaderFormat::Full,
            current_header: ChunkHeader::new(),
            current_stage: ParseStage::Csid,
            buffer: BytesMut::with_capacity(4096),
            previous_headers: HashMap::new(),
            current_payload: MessagePayload::new(),
            csid_payload_data: HashMap::new(),
            consecutive_errors: 0,
        };
        assert(deserializer@.pending =~= Map::total(|csid: u32| Seq::<u8>::empty()));
        deserializer
    }

    /// Takes in `bytes` and reads on until a message is complete or bytes are missing.
    ///
    /// Bytes that do not complete a message yet are kept, and `Ok(None)` is returned;
    /// the same bytes must not be passed in again.  Where the bytes hold several
    /// messages, each call returns one, so calls with an empty slice should follow
    /// until one returns `Ok(None)`.  A message that changes the maximum chunk size
    /// can thus be acted on, with [`Self::set_max_chunk_size`], before the chunks
    /// behind it are read.
    pub fn get_next_message(&mut self, bytes: &[u8]) -> (result: Result<
        Option<MessagePayload>,
        ChunkDeserializationError,
    >)
        requires
            old(self).wf(),
            old(self)@.buffer.len() + bytes@.len() <= isize::MAX,
        ensures
            final(self).wf(),
            reports(result, next_message(old(self)@.fed(bytes@)).0),
            final(self)@ == next_message(old(self)@.fed(bytes@)).1,
            final(self)@.buffer.is_suffix_of(old(self)@.buffer + bytes@),
            final(self)@.max_chunk_size == old(self)@.max_chunk_size,
            result matches Ok(None) ==> final(self)@.buffer.len() < 4
                || final(self)@.buffer.len() < old(self)@.max_chunk_size,
            ({
                let fed = Deserializer { buffer: old(self)@.buffer + bytes@, ..old(self)@ };
                let (outcome, after) = next_message(fed);
                &&& final(self)@ == after
                &&& (result matches Ok(None)) <==> outcome is Waiting
                &&& (result matches Ok(Some(_))) <==> outcome is Complete
                &&& result is Err <==> outcome is Lost
                &&& result matches Ok(Some(payload)) ==> {
                    let message = outcome->Complete_0;
                    &&& payload.timestamp.value == message.timestamp.value
                    &&& payload.type_id == message.type_id
                    &&& payload.message_stream_id == message.message_stream_id
                    &&& bytes_contents(payload.data) == message.data
                }
                &&& result matches Err(error) ==> error
                    == (ChunkDeserializationError::NoPreviousChunkOnStream {
                    csid: outcome->Lost_0,
                })
            }),
    {
        let ghost fed = old(self)@.fed(bytes@);
        proof {
            crate::chunk_io::laws::law_rest_is_suffix(fed);
            crate::chunk_io::laws::law_reading_keeps_chunk_size(fed);
            if next_message(fed).0 is Waiting {
                crate::chunk_io::laws::law_waiting_leaves_few_bytes(fed);
            }
        }
        self.buffer.extend_from_slice(bytes);
        assert(self@ == fed);

        loop
            invariant
                self.wf(),
                fed == old(self)@.fed(bytes@),
                next_message(self@) == next_message(fed),
                next_message(fed).1.buffer.is_suffix_of(fed.buffer),
                next_message(fed).1.max_chunk_size == fed.max_chunk_size,
                next_message(fed).0 is Waiting ==> next_message(fed).1.buffer.len() < 4
                    || next_message(fed).1.buffer.len() < fed.max_chunk_size,
            decreases self@.buffer.len(), parts_left(self@.stage),
        {
            proof {
                crate::chunk_io::laws::law_steps_make_progress(self@);
            }
            let mut complete_message: Option<MessagePayload> = None;
            let result = self.read_current_stage(&mut complete_message);
            match result {
                Err(error) => return Err(error),
                Ok(stage_result) => {
                    if stage_result == ParseStageResult::NotEnoughBytes
                        || complete_message.is_some() {
                        return Ok(complete_message);
                    }
                },
            }
        }
    }

    /// Reads the part of a chunk that is read next.
    fn read_current_stage(&mut self, message_to_return: &mut Option<MessagePayload>) -> (result:
        Result<ParseStageResult, ChunkDeserializationError>)
        requires
            old(self).wf(),
            *old(message_to_return) is None,
        ensures
            final(self).wf(),
            agrees_with_reading(result, *final(message_to_return), final(self)@, step(old(self)@)),
    {
        match self.current_stage {
            ParseStage::Csid => self.form_header(),
            ParseStage::InitialTimestamp => self.get_initial_timestamp(),
            ParseStage::MessageLength => self.get_message_length(),
            ParseStage::MessageTypeId => self.get_message_type_id(),
            ParseStage::MessageStreamId => self.get_message_stream_id(),
            ParseStage::ExtendedTimestamp => self.get_extended_timestamp(),
            ParseStage::MessagePayload => self.get_message_data(message_to_return),
        }
    }

    /// Tells the deserializer that the peer will send chunks of another maximum
    /// size.  A size of more than 31 bits is refused and changes nothing.
    pub fn set_max_chunk_size(&mut self, new_size: usize) -> (result: Result<
        (),
        ChunkDeserializationError,
    >)
        requires
            old(self).wf(),
        ensures
            final(self).wf(),
            new_size > LARGEST_CHUNK_SIZE ==> {
                &&& result == Err::<(), ChunkDeserializationError>(
                    ChunkDeserializationError::InvalidMaxChunkSize { chunk_size: new_size },
                )
                &&& final(self)@ == old(self)@
            },
            new_size <= LARGEST_CHUNK_SIZE ==> {
                &&& result is Ok
                &&& final(self)@ == (Deserializer {
                    max_chunk_size: new_size as nat,
                    ..old(self)@
                })
            },
            result is Ok <==> new_size < 0x8000_0000,
            result is Ok ==> final(self)@.max_chunk_size == new_size,
            result is Err ==> final(self)@.max_chunk_size == old(self)@.max_chunk_size,
    {
        if new_size > LARGEST_CHUNK_SIZE {
            return Err(ChunkDeserializationError::InvalidMaxChunkSize { chunk_size: new_size });
        }
        self.max_chunk_size = new_size;
        Ok(())
    }

    /// The maximum size of the chunks that the peer is expected to send.
    pub fn get_max_chunk_size(&self) -> (size: usize)
        ensures
            size == self@.max_chunk_size,
    {
        self.max_chunk_size
    }

    fn form_header(&mut self) -> (result: Result<ParseStageResult, ChunkDeserializationError>)
        requires
            old(self).wf(),
            old(self)@.stage is Csid,
        ensures
            final(self).wf(),
            agrees_with_step(result, final(self)@, basic_header_step(old(self)@)),
    {
        if self.buffer.len() < 1 {
            return Ok(ParseStageResult::NotEnoughBytes);
        }
        let (csid, next_index): (u32, u32) = {
            let bytes = as_slice(&self.buffer);
            self.current_header_format = get_format(&bytes[0]);
            match get_csid(bytes) {
                ParsedValue::NotEnoughBytes => return Ok(ParseStageResult::NotEnoughBytes),
                ParsedValue::Value { val, next_index } => (val, next_index),
            }
        };

        let mut new_header = ChunkHeader::new();
        new_header.chunk_stream_id = csid;
        self.current_header = match self.current_header_format {
            ChunkHeaderFormat::Full => {
                self.consecutive_errors = 0;
                new_header
            },
            _ => match self.previous_headers.remove(&csid) {
                None => {
                    self.consecutive_errors = self.consecutive_errors.wrapping_add(1);
                    if self.consecutive_errors >= MAX_CONSECUTIVE_ERRORS {
                        assert(self.previous_headers@ =~= old(self).previous_headers@);
                        return Err(ChunkDeserializationError::NoPreviousChunkOnStream { csid });
                    }
                    assert(self.previous_headers@ =~= old(self).previous_headers@);
                    new_header
                },
                Some(header) => {
                    self.consecutive_errors = 0;
                    header
                },
            },
        };

        let _ = self.buffer.split_to(next_index as usize);
        self.current_stage = ParseStage::InitialTimestamp;
        Ok(ParseStageResult::Success)
    }

    fn get_initial_timestamp(&mut self) -> (result: Result<
        ParseStageResult,
        ChunkDeserializationError,
    >)
        requires
            old(self).wf(),
            old(self)@.stage is InitialTimestamp,
        ensures
            final(self).wf(),
            agrees_with_step(result, final(self)@, initial_timestamp_step(old(self)@)),
    {
        if self.current_header_format == ChunkHeaderFormat::Empty {
            // An empty header often follows within one message that was split across
            // chunks.  The time difference counts once per message, so it is applied
            // only where no data of the message has come yet.
            if self.current_payload_len() == 0 {
                self.current_header.timestamp =
                self.current_header.timestamp + self.current_header.timestamp_field;
            }
            self.current_stage = ParseStage::MessageLength;
            return Ok(ParseStageResult::Success);
        }
        if self.buffer.len() < 3 {
            return Ok(ParseStageResult::NotEnoughBytes);
        }
        let timestamp: u32 = match read_u24_big_endian(self.buffer.split_to(3)) {
            Ok(number) => number,
            Err(error) => return Err(ChunkDeserializationError::Io(error)),
        };

        if self.current_header_format == ChunkHeaderFormat::Full {
            self.current_header.timestamp.set(timestamp);
        } else {
            self.current_header.timestamp = self.current_header.timestamp + timestamp;
        }
        self.current_header.timestamp_field = timestamp;

        self.current_stage = ParseStage::MessageLength;
        Ok(ParseStageResult::Success)
    }

    fn get_message_length(&mut self) -> (result: Result<
        ParseStageResult,
        ChunkDeserializationError,
    >)
        requires
            old(self).wf(),
            old(self)@.stage is MessageLength,
        ensures
            final(self).wf(),
            agrees_with_step(result, final(self)@, message_length_step(old(self)@)),
    {
        if self.current_header_format == ChunkHeaderFormat::TimeDeltaOnly
            || self.current_header_format == ChunkHeaderFormat::Empty {
            self.current_stage = ParseStage::MessageTypeId;
            return Ok(ParseStageResult::Success);
        }
        if self.buffer.len() < 3 {
            return Ok(ParseStageResult::NotEnoughBytes);
        }
        let length: u32 = match read_u24_big_endian(self.buffer.split_to(3)) {
            Ok(number) => number,
            Err(error) => return Err(ChunkDeserializationError::Io(error)),
        };

        self.current_header.message_length = length;
        self.current_stage = ParseStage::MessageTypeId;
        Ok(ParseStageResult::Success)
    }

    fn get_message_type_id(&mut self) -> (result: Result<
        ParseStageResult,
        ChunkDeserializationError,
    >)
        requires
            old(self).wf(),
            old(self)@.stage is MessageTypeId,
        ensures
            final(self).wf(),
            agrees_with_step(result, final(self)@, message_type_id_step(old(self)@)),
    {
        if self.current_header_format == ChunkHeaderFormat::TimeDeltaOnly
            || self.current_header_format == ChunkHeaderFormat::Empty {
            self.current_stage = ParseStage::MessageStreamId;
            return Ok(ParseStageResult::Success);
        }
        if self.buffer.len() < 1 {
            return Ok(ParseStageResult::NotEnoughBytes);
        }
        self.current_header.message_type_id = as_slice(&self.buffer)[0];
        let _ = self.buffer.split_to(1);
        self.current_stage = ParseStage::MessageStreamId;
        Ok(ParseStageResult::Success)
    }

    fn get_message_stream_id(&mut self) -> (result: Result<
        ParseStageResult,
        ChunkDeserializationError,
    >)
        requires
            old(self).wf(),
            old(self)@.stage is MessageStreamId,
        ensures
            final(self).wf(),
            agrees_with_step(result, final(self)@, message_stream_id_step(old(self)@)),
    {
        if self.current_header_format != ChunkHeaderFormat::Full {
            self.current_stage = ParseStage::ExtendedTimestamp;
            return Ok(ParseStageResult::Success);
        }
        if self.buffer.len() < 4 {
            return Ok(ParseStageResult::NotEnoughBytes);
        }
        let stream_id: u32 = match read_u32_little_endian(self.buffer.split_to(4)) {
            Ok(number) => number,
            Err(error) => return Err(ChunkDeserializationError::Io(error)),
        };

        self.current_header.message_stream_id = stream_id;
        self.current_stage = ParseStage::ExtendedTimestamp;
        Ok(ParseStageResult::Success)
    }

    fn get_extended_timestamp(&mut self) -> (result: Result<
        ParseStageResult,
        ChunkDeserializationError,
    >)
        requires
            old(self).wf(),
            old(self)@.stage is ExtendedTimestamp,
        ensures
            final(self).wf(),
            agrees_with_step(result, final(self)@, extended_timestamp_step(old(self)@)),
    {
        if self.current_header.timestamp_field < MAX_INITIAL_TIMESTAMP {
            self.current_stage = ParseStage::MessagePayload;
            return Ok(ParseStageResult::Success);
        }
        if self.buffer.len() < 4 {
            return Ok(ParseStageResult::NotEnoughBytes);
        }
        let timestamp: u32 = match read_u32_big_endian(self.buffer.split_to(4)) {
            Ok(number) => number,
            Err(error) => return Err(ChunkDeserializationError::Io(error)),
        };

        if self.current_header_format == ChunkHeaderFormat::Full {
            self.current_header.timestamp.set(timestamp);
        } else if self.current_payload_len() == 0 {
            // The 24 bit time has been added already, so only the rest is left.  Both wrap
            // as timestamps do, so they add up to the time sent even if that is smaller.
            self.current_header.timestamp =
            self.current_header.timestamp + timestamp.wrapping_sub(MAX_INITIAL_TIMESTAMP);
        }
        self.current_stage = ParseStage::MessagePayload;
        Ok(ParseStageResult::Success)
    }

    /// How much data of the current chunk's message has come already.
    fn current_payload_len(&self) -> (len: usize)
        ensures
            len == self@.gathered().len(),
    {
        match self.csid_payload_data.get(&self.current_header.chunk_stream_id) {
            Some(data) => data.len(),
            None => 0,
        }
    }

    fn get_message_data(&mut self, message_to_return: &mut Option<MessagePayload>) -> (result:
        Result<ParseStageResult, ChunkDeserializationError>)
        requires
            old(self).wf(),
            old(self)@.stage is MessagePayload,
            *old(message_to_return) is None,
        ensures
            final(self).wf(),
            agrees_with_reading(
                result,
                *final(message_to_return),
                final(self)@,
                message_payload_step(old(self)@),
            ),
    {
        let csid: u32 = self.current_header.chunk_stream_id;
        let message_length: usize = self.current_header.message_length as usize;
        let current_payload_length: usize = self.current_payload_len();
        let remaining_bytes: usize = message_length.saturating_sub(current_payload_length);

        if current_payload_length > message_length {
            // More data than the message can have: start over on this chunk stream.
            let _ = self.csid_payload_data.remove(&csid);
        }
        let bytes_to_read: usize = if remaining_bytes < self.max_chunk_size {
            remaining_bytes
        } else {
            self.max_chunk_size
        };
        if self.buffer.len() < bytes_to_read {
            return Ok(ParseStageResult::NotEnoughBytes);
        }
        self.current_payload.timestamp = self.current_header.timestamp;
        self.current_payload.type_id = self.current_header.message_type_id;
        self.current_payload.message_stream_id = self.current_header.message_stream_id;

        let mut current_payload_data = match self.csid_payload_data.remove(&csid) {
            Some(data) => data,
            None => BytesMut::new(),
        };

        // Room for the whole message at once pays off where chunks are small.
        if remaining_bytes > remaining_mut(&current_payload_data) {
            let capacity_needed: usize = remaining_bytes - remaining_mut(&current_payload_data);
            current_payload_data.reserve(capacity_needed);
        }
        let bytes = self.buffer.split_to(bytes_to_read);
        current_payload_data.extend_from_slice(as_slice(&bytes));
        let ghost data = bytes_mut_contents(current_payload_data);
        assert(data =~= joined(
            old(self)@.gathered(),
            message_length as nat,
            bytes_mut_contents(bytes),
        ));

        if current_payload_data.len() == message_length {
            self.current_payload.data = current_payload_data.freeze();
            let mut payload = MessagePayload::new();
            std::mem::swap(&mut self.current_payload, &mut payload);
            *message_to_return = Some(payload);
        } else {
            self.csid_payload_data.insert(csid, current_payload_data);
        }

        // The chunk is complete: its header serves the chunks to come.
        let current_header: ChunkHeader = self.current_header;
        self.current_header = ChunkHeader::new();
        self.previous_headers.insert(current_header.chunk_stream_id, current_header);
        self.current_stage = ParseStage::Csid;
        assert(self@.pending =~= old(self)@.pending.insert(
            csid,
            if data.len() == message_length {
                Seq::empty()
            } else {
                data
            },
        ));
        Ok(ParseStageResult::Success)
    }
}

} // verus!
