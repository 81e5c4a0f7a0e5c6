//! Sessions with a peer.

pub mod server;
