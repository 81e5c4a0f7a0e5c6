//! The message streams of a session.

use crate::sessions::server::publish_mode::PublishMode;
use vstd::prelude::*;

verus! {

/// What a message stream is being used for.
pub enum StreamState {
    /// Nothing yet.
    Created,
    /// A client publishes under a stream key.
    Publishing { stream_key: String, mode: PublishMode },
    /// A client plays what is published under a stream key.
    Playing { stream_key: String },
    /// Nothing any more.
    Completed,
}

/// A message stream that has been opened.
pub struct ActiveStream {
    pub current_state: StreamState,
}

} // verus!
