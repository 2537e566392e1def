//! The events a front end driving this library reacts to. The library
//! itself is pure; a presentation layer feeds it the input text carried by
//! `InputChanged` and renders the result.

use vstd::prelude::*;

verus! {

/// One front-end event.
#[derive(Debug, Clone)]
pub enum Message {
    /// The user submitted the current input.
    CreateTask,
    /// Something happened that needs no reaction.
    EventOccurred,
    /// The input text changed; the new text is carried along.
    InputChanged(String),
}

} // verus!
