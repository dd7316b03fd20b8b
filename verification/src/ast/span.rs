//! Source positions.

use vstd::prelude::*;

verus! {

/// A point in the source text: 1-based line and column, and the number of
/// characters before it.
#[derive(Debug, Clone, Copy, PartialEq, Eq, Structural)]
pub struct Position {
    pub line: usize,
    pub column: usize,
    pub offset: usize,
}

/// A range of the source text.
#[derive(Debug, Clone, Copy, PartialEq, Eq, Structural)]
pub struct Span {
    pub start: Position,
    pub end: Position,
}

impl Position {
    pub open spec fn origin() -> Position {
        Position { line: 1, column: 1, offset: 0 }
    }
}

impl Default for Position {
    fn default() -> (p: Self)
        ensures
            p == Position::origin(),
    {
        Position { line: 1, column: 1, offset: 0 }
    }
}

impl Span {
    pub fn new(start: Position, end: Position) -> (s: Span)
        ensures
            s == (Span { start, end }),
    {
        Span { start, end }
    }

    pub open spec fn empty() -> Span {
        Span { start: Position::origin(), end: Position::origin() }
    }
}

impl Default for Span {
    fn default() -> (s: Self)
        ensures
            s == Span::empty(),
    {
        Span { start: Position { line: 1, column: 1, offset: 0 }, end: Position { line: 1, column: 1, offset: 0 } }
    }
}

/// The position of character `i` of an inline text (which is parsed on its
/// own, so it counts as line 1).
pub open spec fn inline_pos(i: int) -> Position {
    Position {
        line: 1,
        column: if i < usize::MAX { (i + 1) as usize } else { i as usize },
        offset: i as usize,
    }
}

pub fn inline_pos_exec(i: usize) -> (p: Position)
    ensures
        p == inline_pos(i as int),
{
    Position { line: 1, column: if i < usize::MAX { i + 1 } else { i }, offset: i }
}

/// The span of characters `a..b` of an inline text.
pub open spec fn inline_span(a: int, b: int) -> Span {
    Span { start: inline_pos(a), end: inline_pos(b) }
}

pub fn inline_span_exec(a: usize, b: usize) -> (s: Span)
    ensures
        s == inline_span(a as int, b as int),
{
    Span { start: inline_pos_exec(a), end: inline_pos_exec(b) }
}

} // verus!
