//! Zero-based positions and ranges in a text document.
use vstd::prelude::*;

verus! {

/// A zero-based line and column (counted in characters).
#[derive(Clone, Copy, Debug, PartialEq, Eq, Structural)]
pub struct Position {
    pub line: u32,
    pub character: u32,
}

/// A span from `start` to `end` in a text document.
#[derive(Clone, Copy, Debug, PartialEq, Eq, Structural)]
pub struct Range {
    pub start: Position,
    pub end: Position,
}

/// `a` comes at or before `b` in document order.
pub open spec fn pos_le(a: Position, b: Position) -> bool {
    a.line < b.line || (a.line == b.line && a.character <= b.character)
}

/// `r` starts at or before its end.
pub open spec fn range_wf(r: Range) -> bool {
    pos_le(r.start, r.end)
}

/// `inner` lies fully inside `outer`.
pub open spec fn range_within(inner: Range, outer: Range) -> bool {
    pos_le(outer.start, inner.start) && pos_le(inner.end, outer.end)
}

/// The point lies in `r`, both ends counted as inside.
pub open spec fn range_contains_point(r: Range, p: Position) -> bool {
    pos_le(r.start, p) && pos_le(p, r.end)
}

/// Width times height of a range: the width is the distance between the
/// start and end columns, the height the number of lines it touches.
pub open spec fn area(r: Range) -> int {
    let w: int = if r.end.character >= r.start.character {
        r.end.character - r.start.character
    } else {
        r.start.character - r.end.character
    };
    let h: int = if r.end.line >= r.start.line {
        r.end.line - r.start.line + 1
    } else {
        r.start.line - r.end.line + 1
    };
    w * h
}

impl Position {
    pub fn new(line: u32, character: u32) -> (r: Position)
        ensures
            r.line == line,
            r.character == character,
    {
        Position { line, character }
    }

    /// Document order: `self` at or before `other`.
    pub fn le(&self, other: &Position) -> (r: bool)
        ensures
            r == pos_le(*self, *other),
    {
        self.line < other.line || (self.line == other.line && self.character <= other.character)
    }
}

impl Range {
    pub fn new(start: Position, end: Position) -> (r: Range)
        ensures
            r.start == start,
            r.end == end,
    {
        Range { start, end }
    }

    /// Whether the point lies in the range, both ends counted as inside.
    pub fn contains(&self, p: &Position) -> (r: bool)
        ensures
            r == range_contains_point(*self, *p),
    {
        self.start.le(p) && p.le(&self.end)
    }

    /// The smallest range that holds both `self` and `other`.
    pub fn hull(&self, other: &Range) -> (r: Range)
        ensures
            range_within(*self, r),
            range_within(*other, r),
            r.start == (if pos_le(self.start, other.start) { self.start } else { other.start }),
            r.end == (if pos_le(self.end, other.end) { other.end } else { self.end }),
    {
        let start = if self.start.le(&other.start) { self.start } else { other.start };
        let end = if self.end.le(&other.end) { other.end } else { self.end };
        Range { start, end }
    }
}

/// Area of a range, as `area` states it.
pub fn area_of_range(range: &Range) -> (r: u64)
    ensures
        r == area(*range),
{
    let w: u64 = if range.end.character >= range.start.character {
        (range.end.character - range.start.character) as u64
    } else {
        (range.start.character - range.end.character) as u64
    };
    let h: u64 = if range.end.line >= range.start.line {
        (range.end.line - range.start.line) as u64 + 1
    } else {
        (range.start.line - range.end.line) as u64 + 1
    };
    assert(w * h <= 0xffff_ffff_u64 * 0x1_0000_0000_u64) by (nonlinear_arith)
        requires w <= 0xffff_ffff_u64, h <= 0x1_0000_0000_u64;
    w * h
}

} // verus!
