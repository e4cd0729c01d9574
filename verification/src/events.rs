//! The structural events that the scanner produces and the compiler consumes.
//!
//! A markdown document is reduced to a flat sequence of these events: heading
//! boundaries, fenced code block boundaries, block quote and list boundaries,
//! text runs, inline code spans and HTML comment lines.  `Boundary` marks the
//! start of a new text block; the compiler resets its text buffer there, as it
//! does at every other start event.

use vstd::prelude::*;

verus! {

/// Model of an [`Event`], with text as character sequences.
#[verifier::ext_equal]
pub enum EventModel {
    HeadingStart { level: int, pos: int },
    HeadingEnd { level: int },
    FenceStart { info: Seq<char>, pos: int },
    FenceEnd { info: Seq<char> },
    QuoteStart,
    QuoteEnd,
    ListStart,
    ListEnd,
    ItemStart,
    ItemEnd,
    Boundary,
    Text { text: Seq<char> },
    Code { text: Seq<char> },
    Html { text: Seq<char> },
}

/// One structural event of the markdown subset.
#[derive(Debug, PartialEq)]
pub enum Event {
    /// A heading line begins; `pos` is its position in the document.
    HeadingStart { level: u8, pos: usize },
    /// The heading's inline text is complete.
    HeadingEnd { level: u8 },
    /// A fenced code block begins; `info` is its info string.
    FenceStart { info: Vec<char>, pos: usize },
    /// The fenced code block ends.
    FenceEnd { info: Vec<char> },
    /// A block quote begins.
    QuoteStart,
    /// The block quote ends.
    QuoteEnd,
    /// A list begins.
    ListStart,
    /// The list ends.
    ListEnd,
    /// A list item begins.
    ItemStart,
    /// The list item ends.
    ItemEnd,
    /// A new text block begins: the text buffer resets here.
    Boundary,
    /// A run of plain text.
    Text { text: Vec<char> },
    /// An inline code span, without its backticks.
    Code { text: Vec<char> },
    /// An HTML comment line.
    Html { text: Vec<char> },
}

impl View for Event {
    type V = EventModel;

    open spec fn view(&self) -> EventModel {
        match self {
            Event::HeadingStart { level, pos } => EventModel::HeadingStart {
                level: *level as int,
                pos: *pos as int,
            },
            Event::HeadingEnd { level } => EventModel::HeadingEnd { level: *level as int },
            Event::FenceStart { info, pos } => EventModel::FenceStart {
                info: info@,
                pos: *pos as int,
            },
            Event::FenceEnd { info } => EventModel::FenceEnd { info: info@ },
            Event::QuoteStart => EventModel::QuoteStart,
            Event::QuoteEnd => EventModel::QuoteEnd,
            Event::ListStart => EventModel::ListStart,
            Event::ListEnd => EventModel::ListEnd,
            Event::ItemStart => EventModel::ItemStart,
            Event::ItemEnd => EventModel::ItemEnd,
            Event::Boundary => EventModel::Boundary,
            Event::Text { text } => EventModel::Text { text: text@ },
            Event::Code { text } => EventModel::Code { text: text@ },
            Event::Html { text } => EventModel::Html { text: text@ },
        }
    }
}

impl DeepView for Event {
    type V = EventModel;

    open spec fn deep_view(&self) -> EventModel {
        self.view()
    }
}

} // verus!
