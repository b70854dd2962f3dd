//! Positions by line and column, and the ranges and locations made of them.
//!
//! A column counts bytes from the start of its line; a line ends with the
//! line feed byte.

use vstd::prelude::*;
use crate::text::TextRange;

verus! {

/// A place in a text: a line and a byte column on it, both counted from 0.
#[derive(Clone, Copy, Debug, PartialEq, Eq, Structural)]
pub struct Position {
    pub line: u32,
    pub character: u32,
}

/// The stretch of text between two positions.
#[derive(Clone, Copy, Debug, PartialEq, Eq, Structural)]
pub struct Range {
    pub start: Position,
    pub end: Position,
}

/// A range in the document with the given identifier.
#[derive(Clone, Debug, PartialEq, Eq)]
pub struct Location {
    pub uri: String,
    pub range: Range,
}

/// A location as a mathematical value.
pub struct LocationView {
    pub uri: Seq<char>,
    pub range: Range,
}

impl View for Location {
    type V = LocationView;

    open spec fn view(&self) -> LocationView {
        LocationView { uri: self.uri@, range: self.range }
    }
}

/// The line feed byte.
pub const LINE_FEED: u8 = 10;

impl Position {
    pub fn new(line: u32, character: u32) -> (position: Position)
        ensures
            position == (Position { line, character }),
    {
        Position { line, character }
    }

    /// Positions are ordered by line, and on one line by column.
    pub open spec fn le_spec(self, other: Position) -> bool {
        self.line < other.line || (self.line == other.line && self.character <= other.character)
    }

    #[verifier::when_used_as_spec(le_spec)]
    pub fn le(self, other: Position) -> (before: bool)
        ensures
            before == self.le_spec(other),
    {
        self.line < other.line || (self.line == other.line && self.character <= other.character)
    }
}

impl Range {
    pub fn new(start: Position, end: Position) -> (range: Range)
        ensures
            range == (Range { start, end }),
    {
        Range { start, end }
    }
}

impl Location {
    pub fn new(uri: String, range: Range) -> (location: Location)
        ensures
            location@ == (LocationView { uri: uri@, range }),
    {
        Location { uri, range }
    }
}

/// Whether `position` lies in `range`, both of its ends included.
pub open spec fn contains_spec(range: Range, position: Position) -> bool {
    range.start.le(position) && position.le(range.end)
}

#[verifier::when_used_as_spec(contains_spec)]
pub fn contains(range: Range, position: Position) -> (inside: bool)
    ensures
        inside == contains_spec(range, position),
{
    range.start.le(position) && position.le(range.end)
}

/// The range from one line and column to another.
pub fn create(start_line: u32, start_character: u32, end_line: u32, end_character: u32) -> (range:
    Range)
    ensures
        range == (Range {
            start: Position { line: start_line, character: start_character },
            end: Position { line: end_line, character: end_character },
        }),
{
    Range::new(Position::new(start_line, start_character), Position::new(end_line, end_character))
}

/// The number of line feeds in the first `offset` bytes of `text`.
pub open spec fn line_number(text: Seq<u8>, offset: int) -> int
    decreases offset,
{
    if offset <= 0 {
        0
    } else if text[offset - 1] == LINE_FEED {
        line_number(text, offset - 1) + 1
    } else {
        line_number(text, offset - 1)
    }
}

/// The offset at which the line that holds `offset` starts: the offset
/// behind the last line feed among the first `offset` bytes of `text`.
pub open spec fn line_start(text: Seq<u8>, offset: int) -> int
    decreases offset,
{
    if offset <= 0 {
        0
    } else if text[offset - 1] == LINE_FEED {
        offset
    } else {
        line_start(text, offset - 1)
    }
}

/// The line and column of the byte offset `offset` in `text`.
pub open spec fn position_of(text: Seq<u8>, offset: int) -> Position {
    Position {
        line: line_number(text, offset) as u32,
        character: (offset - line_start(text, offset)) as u32,
    }
}

/// The positions of the two ends of a byte range in `text`.
pub open spec fn range_of(text: Seq<u8>, range: TextRange) -> Range {
    Range {
        start: position_of(text, range.start as int),
        end: position_of(text, range.end as int),
    }
}

/// Line numbers and line starts stay within the offset they are taken at.
pub proof fn lemma_line_bounds(text: Seq<u8>, offset: int)
    requires
        0 <= offset,
    ensures
        0 <= line_number(text, offset) <= offset,
        0 <= line_start(text, offset) <= offset,
    decreases offset,
{
    if offset > 0 {
        lemma_line_bounds(text, offset - 1);
    }
}

/// A later offset never has an earlier position.
pub proof fn lemma_position_monotonic(text: Seq<u8>, from: int, to: int)
    requires
        0 <= from <= to <= u32::MAX,
    ensures
        position_of(text, from).le(position_of(text, to)),
        line_number(text, from) <= line_number(text, to),
        line_number(text, from) == line_number(text, to) ==> line_start(text, from) == line_start(
            text,
            to,
        ),
    decreases to - from,
{
    lemma_line_bounds(text, from);
    lemma_line_bounds(text, to);
    if from < to {
        lemma_position_monotonic(text, from, to - 1);
        lemma_line_bounds(text, to - 1);
    }
}

/// A later offset has a later position.
pub proof fn lemma_position_strict(text: Seq<u8>, from: int, to: int)
    requires
        0 <= from < to <= u32::MAX,
    ensures
        !position_of(text, to).le(position_of(text, from)),
{
    lemma_position_monotonic(text, from, to);
    lemma_line_bounds(text, from);
    lemma_line_bounds(text, to);
}

/// The position of an offset outside a byte range lies outside the
/// positions of that range.
pub proof fn lemma_position_outside(text: Seq<u8>, range: TextRange, offset: int)
    requires
        range.wf(),
        0 <= offset <= u32::MAX,
        offset < range.start || range.end < offset,
    ensures
        !contains(range_of(text, range), position_of(text, offset)),
{
    if offset < range.start {
        lemma_position_strict(text, offset, range.start as int);
    } else {
        lemma_position_strict(text, range.end as int, offset);
    }
}

/// Finds the line and column of a byte offset.
pub fn position_at(text: &[u8], offset: u32) -> (position: Position)
    requires
        offset <= text@.len(),
    ensures
        position == position_of(text@, offset as int),
{
    let mut line: u32 = 0;
    let mut start: u32 = 0;
    let mut i: u32 = 0;
    while i < offset
        invariant
            i <= offset <= text@.len(),
            line == line_number(text@, i as int),
            start == line_start(text@, i as int),
            line <= i,
            start <= i,
        decreases offset - i,
    {
        if text[i as usize] == LINE_FEED {
            line = line + 1;
            start = i + 1;
        }
        i = i + 1;
    }
    Position::new(line, offset - start)
}

/// Finds the positions of the two ends of a byte range.
pub fn range_at(text: &[u8], range: TextRange) -> (positions: Range)
    requires
        range.wf(),
        range.end <= text@.len(),
    ensures
        positions == range_of(text@, range),
{
    Range::new(position_at(text, range.start), position_at(text, range.end))
}

} // verus!
