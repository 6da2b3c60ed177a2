//! Source positions and the spans between them.
use vstd::prelude::*;

verus! {

/// A place in the source text. All three fields count from zero: `line` and
/// `column` in characters, `offset` in bytes of the UTF-8 text.
#[derive(Clone, Copy, Debug, PartialEq, Eq)]
pub struct Position {
    pub line: usize,
    pub column: usize,
    pub offset: usize,
}

impl Position {
    pub fn new(line: usize, column: usize, offset: usize) -> (position: Self)
        ensures
            position.line == line,
            position.column == column,
            position.offset == offset,
    {
        Self { line, column, offset }
    }
}

/// The inclusive extent of a token or syntax-tree node: the positions of its
/// first and of its last character.
#[derive(Clone, Copy, Debug, PartialEq, Eq)]
pub struct Span {
    pub start: Position,
    pub end: Position,
}

impl Span {
    /// A span does not end before it starts.
    pub open spec fn wf(self) -> bool {
        self.start.offset <= self.end.offset
    }

    /// The span of the single character at `start`; `ends` may then move its end.
    pub fn starts(start: Position) -> (span: Self)
        ensures
            span.start == start,
            span.end == start,
    {
        Self { start, end: start }
    }

    /// The same span with its end moved to `end`.
    pub fn ends(self, end: Position) -> (span: Self)
        ensures
            span.start == self.start,
            span.end == end,
    {
        Self { start: self.start, end }
    }

    /// The span from `start` to `end`, both included.
    pub fn range(start: Position, end: Position) -> (span: Self)
        ensures
            span.start == start,
            span.end == end,
    {
        Self { start, end }
    }

    /// The span of the single character at `position`.
    pub fn at(position: Position) -> (span: Self)
        ensures
            span.start == position,
            span.end == position,
    {
        Self { start: position, end: position }
    }
}

} // verus!
