//! Spans of complete lines.

use vstd::prelude::*;
use crate::position::Position;
use crate::range::Range;

verus! {

/// A more concise expression for ranges spanning complete lines.
#[derive(Clone, Copy, Debug, PartialEq, Eq, Structural)]
pub struct LineRange {
    start: usize,
    end: usize,
}

impl LineRange {
    /// The two lines are kept in order by construction.
    #[verifier::type_invariant]
    spec fn ordered(self) -> bool {
        self.start <= self.end
    }

    /// The lesser line, as seen by specifications.
    pub closed spec fn spec_start(&self) -> usize {
        self.start
    }

    /// The greater line, as seen by specifications.
    pub closed spec fn spec_end(&self) -> usize {
        self.end
    }

    /// Creates a new buffer line range. Checks and swaps
    /// arguments in the event that the end precedes the start.
    pub fn new(start: usize, end: usize) -> (r: LineRange)
        ensures
            r.spec_start() == if start < end {
                start
            } else {
                end
            },
            r.spec_end() == if start < end {
                end
            } else {
                start
            },
            r.spec_start() <= r.spec_end(),
    {
        if start < end {
            LineRange { start, end }
        } else {
            LineRange { start: end, end: start }
        }
    }

    /// The lesser of the range's two lines.
    pub fn start(&self) -> (r: usize)
        ensures
            r == self.spec_start(),
    {
        self.start
    }

    /// The greater of the range's two lines.
    pub fn end(&self) -> (r: usize)
        ensures
            r == self.spec_end(),
    {
        self.end
    }

    /// Converts the line range to a regular, zero-offset range.
    pub fn to_range(&self) -> (r: Range)
        ensures
            r.start == (Position { line: self.spec_start(), offset: 0 }),
            r.end == (Position { line: self.spec_end(), offset: 0 }),
    {
        proof {
            use_type_invariant(self);
        }
        Range::new(
            Position { line: self.start, offset: 0 },
            Position { line: self.end, offset: 0 },
        )
    }

    /// Converts the line range to a regular, zero-offset range, including
    /// the line on which the range ends.
    pub fn to_inclusive_range(&self) -> (r: Range)
        requires
            self.spec_end() < usize::MAX,
        ensures
            r.start == (Position { line: self.spec_start(), offset: 0 }),
            r.end.line == self.spec_end() + 1,
            r.end.offset == 0,
    {
        proof {
            use_type_invariant(self);
        }
        Range::new(
            Position { line: self.start, offset: 0 },
            Position { line: self.end + 1, offset: 0 },
        )
    }

    /// Whether or not the line range includes the specified line.
    /// The range is half-open: its ending line is not included.
    pub fn includes(&self, line: usize) -> (r: bool)
        ensures
            r == (self.spec_start() <= line && line < self.spec_end()),
    {
        line >= self.start() && line < self.end()
    }
}

} // verus!
