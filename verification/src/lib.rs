//! A small to-do list library: an ordered task store persisted as a JSON
//! array, a key-driven UI state machine with wrap-around list navigation,
//! and a pure description of what each frame should show.

pub mod codec;
pub mod pump;
pub mod render;
pub mod store;
pub mod task;
pub mod ui;

use vstd::prelude::*;

verus! {

/// Failures of the task store and of its persisted file.
#[derive(Clone, Copy, Debug, PartialEq, Eq, Structural)]
pub enum Error {
    /// The persisted file could not be read.
    ReadFailure,
    /// The persisted file's contents are not a valid sequence of task records.
    ParseFailure,
    /// The persisted file could not be written.
    WriteFailure,
    /// The task sequence could not be encoded.
    SerializeFailure,
    /// An index-based operation was given an index outside the sequence.
    IndexOutOfRange,
}

} // verus!
