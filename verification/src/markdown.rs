//! The lines of a note as they are shown.
use vstd::prelude::*;

verus! {

/// What a line is.
#[derive(Debug, Clone, Copy, PartialEq, Eq, Structural)]
pub enum LineKind {
    Rule,
    Heading1,
    Heading2,
    Heading3,
    Checkbox { done: bool },
    Bullet,
    Quote,
    Code,
    Plain,
}

/// What a run of characters within a line is.
#[derive(Debug, Clone, Copy, PartialEq, Eq, Structural)]
pub enum SpanKind {
    Strong,
    Code,
}

/// A run of characters, from `start` up to `end`, counted in characters.
#[derive(Debug, Clone, Copy, PartialEq, Eq, Structural)]
pub struct Span {
    pub start: usize,
    pub end: usize,
    pub kind: SpanKind,
}

/// A line of a note.
#[derive(Debug)]
pub struct RenderedLine {
    pub text: String,
    pub kind: LineKind,
    pub spans: Vec<Span>,
}

impl RenderedLine {
    /// No run reaches beyond the text.
    pub open spec fn well_formed(&self) -> bool {
        forall|i: int|
            0 <= i < self.spans@.len() ==> (#[trigger] self.spans@[i]).start <= self.text@.len()
                && self.spans@[i].end <= self.text@.len()
    }
}

} // verus!
