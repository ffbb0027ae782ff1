//! Two-coordinate buffer locations.

use vstd::prelude::*;
use crate::distance::Distance;
use core::cmp::Ordering;

verus! {

/// A two (zero-based) coordinate value representing a location in a buffer.
/// The `offset` field counts grapheme clusters, and points to the gap
/// *between* characters rather than to a character itself.
#[derive(Clone, Copy, Debug, PartialEq, Eq, Structural)]
pub struct Position {
    pub line: usize,
    pub offset: usize,
}

/// Lexicographic order on positions: first by line, then by offset.
pub open spec fn pos_lt(a: Position, b: Position) -> bool {
    a.line < b.line || (a.line == b.line && a.offset < b.offset)
}

/// `a` comes no later than `b` in the lexicographic order.
pub open spec fn pos_le(a: Position, b: Position) -> bool {
    pos_lt(a, b) || a == b
}

impl PartialOrd for Position {
    fn partial_cmp(&self, other: &Position) -> (r: Option<Ordering>) {
        if self.line < other.line {
            Some(Ordering::Less)
        } else if self.line > other.line {
            Some(Ordering::Greater)
        } else if self.offset < other.offset {
            Some(Ordering::Less)
        } else if self.offset > other.offset {
            Some(Ordering::Greater)
        } else {
            Some(Ordering::Equal)
        }
    }
}

impl vstd::std_specs::cmp::PartialOrdSpecImpl for Position {
    open spec fn obeys_partial_cmp_spec() -> bool {
        true
    }

    open spec fn partial_cmp_spec(&self, other: &Position) -> Option<Ordering> {
        if pos_lt(*self, *other) {
            Some(Ordering::Less)
        } else if *self == *other {
            Some(Ordering::Equal)
        } else {
            Some(Ordering::Greater)
        }
    }
}

impl Position {
    /// Creates a new position with a line and offset of 0.
    pub fn new() -> (r: Position)
        ensures
            r == (Position { line: 0, offset: 0 }),
    {
        Position { line: 0, offset: 0 }
    }

    /// The position reached by moving from `self` over a span of the given
    /// shape: the line advances by `distance.lines`, and the offset is either
    /// absolute (when the span covers at least one line break) or added to
    /// the current offset (when it does not).
    pub fn offset_by(self, distance: Distance) -> (r: Position)
        requires
            self.line + distance.lines <= usize::MAX,
            distance.lines == 0 ==> self.offset + distance.offset <= usize::MAX,
        ensures
            r.line == self.line + distance.lines,
            r.offset == if distance.lines > 0 {
                distance.offset as int
            } else {
                self.offset + distance.offset
            },
    {
        let offset: usize = if distance.lines > 0 {
            distance.offset
        } else {
            self.offset + distance.offset
        };

        Position { line: self.line + distance.lines, offset }
    }
}

} // verus!
