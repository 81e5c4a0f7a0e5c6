//! Sessions in which this side is the server.

mod active_stream;
mod publish_mode;

pub use self::active_stream::{ActiveStream, StreamState};
pub use self::publish_mode::PublishMode;
