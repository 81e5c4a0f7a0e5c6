//! How a client publishes.

use vstd::prelude::*;

verus! {

/// What becomes of the data that a client publishes.
#[derive(Clone, Copy, Debug, PartialEq, Eq, Structural)]
pub enum PublishMode {
    /// It goes to those who watch, and nowhere else.
    Live,
    /// It is also added to what was recorded before.
    Append,
    /// It is also recorded anew.
    Record,
}

} // verus!
