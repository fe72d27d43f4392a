//! Positions in source text, and the notes that a diagnostic attaches to
//! them.

use crate::text::{decimal, decimal_string};
use vstd::prelude::*;

verus! {

/// What a diagnostic says: the sources that it speaks of, the place that it
/// is about, and its notes.
#[derive(Debug, Clone)]
pub struct Annotations {
    pub sources: Vec<String>,
    pub primary: Span,
    pub annotations: Vec<SourceAnnotation>,
}

impl Annotations {
    /// True when the diagnostic holds nothing but the error message
    /// `message`: no source, the empty span at line 0, column 0, and one
    /// note, which is that error and refers to no source and no other note.
    pub open spec fn is_bare_error(self, message: Seq<char>) -> bool {
        &&& self.sources@.len() == 0
        &&& self.primary == Span::origin()
        &&& self.annotations@.len() == 1
        &&& self.annotations@[0].source is None
        &&& self.annotations@[0].message matches SpanMessage::Error(text)
        &&& text@ == message
        &&& self.annotations@[0].annotations@.len() == 0
    }

    /// A diagnostic of one error message that points nowhere.
    pub fn from_error_message(s: String) -> (r: Annotations)
        ensures
            r.is_bare_error(s@),
    {
        let note = SourceAnnotation {
            source: None,
            message: SpanMessage::Error(s),
            annotations: Vec::new(),
        };
        let mut annotations = Vec::new();
        annotations.push(note);
        Annotations {
            sources: Vec::new(),
            primary: Span { start: SourcePos::new(0, 0), end: SourcePos::new(0, 0) },
            annotations,
        }
    }
}

/// One note of a diagnostic: the source that it is about, by its index, the
/// message, and the notes that it refers to, by their indices.
#[derive(Debug, Clone)]
pub struct SourceAnnotation {
    pub source: Option<usize>,
    pub message: SpanMessage,
    pub annotations: Vec<usize>,
}

/// A stretch of source text between two positions.
#[derive(Debug, Clone, Copy, PartialEq, Eq, Structural)]
pub struct Span {
    pub start: SourcePos,
    pub end: SourcePos,
}

impl Span {
    /// The empty span at line 0, column 0.
    pub open spec fn origin() -> Span {
        Span { start: SourcePos { line: 0, col: 0 }, end: SourcePos { line: 0, col: 0 } }
    }

    /// How the span reads.
    pub open spec fn text(self) -> Seq<char> {
        "Span { start: "@ + self.start.text() + ", end: "@ + self.end.text() + " }"@
    }

    /// The span as text, with both of its positions.
    pub fn debug_string(&self) -> (text: String)
        ensures
            text@ == self.text(),
    {
        let mut text = String::from_str("Span { start: ");
        text.append(self.start.debug_string().as_str());
        text.append(", end: ");
        text.append(self.end.debug_string().as_str());
        text.append(" }");
        text
    }
}

/// A line and a column.
#[derive(Debug, Clone, Copy, PartialEq, Eq, Structural)]
pub struct SourcePos {
    pub line: u32,
    pub col: u32,
}

impl SourcePos {
    /// The position at `line` and `col`.
    pub fn new(line: u32, col: u32) -> (pos: SourcePos)
        ensures
            pos == (SourcePos { line, col }),
    {
        SourcePos { line, col }
    }

    /// How the position reads.
    pub open spec fn text(self) -> Seq<char> {
        "SourcePos { line: "@ + decimal(self.line as nat) + ", col: "@ + decimal(self.col as nat)
            + " }"@
    }

    /// The position as text, with its line and its column in decimal.
    pub fn debug_string(&self) -> (text: String)
        ensures
            text@ == self.text(),
    {
        let mut text = String::from_str("SourcePos { line: ");
        text.append(decimal_string(self.line).as_str());
        text.append(", col: ");
        text.append(decimal_string(self.col).as_str());
        text.append(" }");
        text
    }
}

/// A message with its severity.
#[derive(Debug, Clone)]
pub enum SpanMessage {
    Error(String),
    Help(String),
    Note(String),
    Warning(String),
}

} // verus!
