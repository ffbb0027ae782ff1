//! Absolute spans between two buffer positions.

use vstd::prelude::*;
use crate::position::{pos_le, pos_lt, Position};

verus! {

/// A two-position type, representing a span of characters.
///
/// The fields are public so that a range can be written down literally;
/// `new` is the ordering constructor, swapping its arguments when needed.
/// The reading and deleting operations tolerate a descending range built
/// by hand: they treat it as empty rather than failing.
#[derive(Clone, Copy, Debug, PartialEq, Eq, Structural)]
pub struct Range {
    pub start: Position,
    pub end: Position,
}

impl Range {
    /// Creates a new buffer range. Checks and swaps arguments
    /// in the event that the end precedes the start.
    pub fn new(start: Position, end: Position) -> (r: Range)
        ensures
            r == if pos_lt(end, start) {
                Range { start: end, end: start }
            } else {
                Range { start, end }
            },
            pos_le(r.start, r.end),
    {
        if start > end {
            Range { start: end, end: start }
        } else {
            Range { start, end }
        }
    }

    /// The lesser of the range's two positions.
    pub fn start(&self) -> (r: Position)
        ensures
            r == self.start,
    {
        self.start
    }

    /// The greater of the range's two positions.
    pub fn end(&self) -> (r: Position)
        ensures
            r == self.end,
    {
        self.end
    }

    /// Whether the range was built with its start strictly before its end;
    /// a range whose positions coincide spans no characters.
    pub fn is_valid(&self) -> (r: bool)
        ensures
            r == pos_lt(self.start, self.end),
    {
        self.start < self.end
    }

    /// Whether or not the range includes the specified position.
    /// The range is half-open: its ending position is not included.
    pub fn includes(&self, position: &Position) -> (r: bool)
        ensures
            r == (pos_le(self.start, *position) && pos_lt(*position, self.end)),
    {
        *position >= self.start() && *position < self.end()
    }
}

} // verus!
