//! The markdown event stream: an ordered sequence of structural events.
//! Only the variants the pipeline inspects are distinguished; every other
//! event passes through the stages opaquely.

use vstd::prelude::*;

verus! {

/// One markdown structural event.
#[derive(Debug, PartialEq, Eq)]
pub enum Event {
    /// A soft line break inside a paragraph.
    SoftBreak,
    /// A hard line break inside a paragraph.
    HardBreak,
    /// A run of text.
    Text(String),
    /// The start of an image reference.
    Image { url: String, title: String },
    /// Any other structural event; the pipeline never inspects it.
    Other,
}

/// The ordered event stream of one note.
pub type MarkdownEvents = Vec<Event>;

} // verus!
