//! RTMP messages, before their contents are interpreted.

use crate::byte_buffers::bytes_contents;
use crate::time::RtmpTimestamp;
use bytes::Bytes;
use vstd::prelude::*;

verus! {

/// An RTMP message whose data has not been interpreted yet.
#[derive(Debug, PartialEq)]
pub struct MessagePayload {
    pub timestamp: RtmpTimestamp,
    pub type_id: u8,
    pub message_stream_id: u32,
    pub data: Bytes,
}

/// What a [`MessagePayload`] says.
#[verifier::ext_equal]
pub struct Message {
    pub timestamp: RtmpTimestamp,
    pub type_id: u8,
    pub message_stream_id: u32,
    pub data: Seq<u8>,
}

impl View for MessagePayload {
    type V = Message;

    open spec fn view(&self) -> Message {
        Message {
            timestamp: self.timestamp,
            type_id: self.type_id,
            message_stream_id: self.message_stream_id,
            data: bytes_contents(self.data),
        }
    }
}

impl MessagePayload {
    /// A message with no data, at time zero.
    pub fn new() -> (payload: MessagePayload)
        ensures
            payload@ == (Message {
                timestamp: RtmpTimestamp { value: 0 },
                type_id: 0,
                message_stream_id: 0,
                data: Seq::empty(),
            }),
            payload.timestamp.value == 0,
            payload.type_id == 0,
            payload.message_stream_id == 0,
            bytes_contents(payload.data).len() == 0,
    {
        MessagePayload {
            timestamp: RtmpTimestamp::new(0),
            type_id: 0,
            message_stream_id: 0,
            data: Bytes::new(),
        }
    }
}

} // verus!
