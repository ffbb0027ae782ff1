//! Bounds-checked buffer cursor type.

use vstd::prelude::*;
use crate::gap_buffer::GapBuffer;
use crate::position::Position;
use crate::text::{line_length, newline_count, tail_length};

verus! {

/// A bounds-checked `(line, offset)` location within a gap buffer, with a
/// "sticky" offset: the column the user last asked for, which vertical
/// motion tries to regain on each step even across shorter lines.
///
/// The cursor does not hold its buffer; each motion takes the buffer it is
/// checked against.
#[derive(Clone, Copy, Debug, PartialEq, Eq, Structural)]
pub struct Cursor {
    pub position: Position,
    pub sticky_offset: usize,
}

impl Cursor {
    /// Initializes a cursor at the specified position.
    pub fn new(position: Position) -> (r: Cursor)
        ensures
            r.position == position,
            r.sticky_offset == position.offset,
    {
        Cursor { position, sticky_offset: position.offset }
    }

    /// The cursor's line.
    pub fn line(&self) -> (r: usize)
        ensures
            r == self.position.line,
    {
        self.position.line
    }

    /// The cursor's offset within its line, in grapheme clusters.
    pub fn offset(&self) -> (r: usize)
        ensures
            r == self.position.offset,
    {
        self.position.offset
    }

    /// Moves the cursor to the specified location. The location is
    /// bounds-checked against the buffer and the cursor will not be
    /// updated if it is out-of-bounds.
    pub fn move_to(&mut self, buffer: &GapBuffer, position: Position) -> (r: bool)
        requires
            buffer.wf(),
        ensures
            r == buffer.resolve(position).is_some(),
            r ==> final(self).position == position && final(self).sticky_offset
                == position.offset,
            !r ==> *final(self) == *old(self),
    {
        if buffer.in_bounds(&position) {
            self.position = position;
            // Remember this offset so that we can try
            // to maintain it when moving across lines.
            self.sticky_offset = position.offset;
            true
        } else {
            false
        }
    }

    /// Decrements the cursor line, aiming for the sticky offset and
    /// falling back to the end of the target line when that column does
    /// not exist there. At the top of the buffer nothing changes.
    pub fn move_up(&mut self, buffer: &GapBuffer)
        requires
            buffer.wf(),
        ensures
            old(self).position.line == 0 ==> *final(self) == *old(self),
            old(self).position.line > 0 ==> final_vertical_state(
                *old(self),
                *final(self),
                *buffer,
                old(self).position.line - 1,
            ),
    {
        // Don't bother if we are already at the top.
        if self.position.line == 0 {
            return ;
        }
        let target_line = self.position.line - 1;
        self.vertical_move(buffer, target_line);
    }

    /// Increments the cursor line, aiming for the sticky offset and
    /// falling back to the end of the target line when that column does
    /// not exist there.
    pub fn move_down(&mut self, buffer: &GapBuffer)
        requires
            buffer.wf(),
            old(self).position.line < usize::MAX,
        ensures
            final_vertical_state(
                *old(self),
                *final(self),
                *buffer,
                old(self).position.line + 1,
            ),
    {
        let target_line = self.position.line + 1;
        self.vertical_move(buffer, target_line);
    }

    /// One vertical step: try the sticky offset on the target line, then
    /// fall back to that line's end, restoring the sticky offset so a
    /// later step may regain the desired column.
    fn vertical_move(&mut self, buffer: &GapBuffer, target_line: usize)
        requires
            buffer.wf(),
        ensures
            final_vertical_state(*old(self), *final(self), *buffer, target_line as int),
    {
        let ghost sticky = self.sticky_offset;
        let first_try = Position { line: target_line, offset: self.sticky_offset };
        // Try moving to the same offset on the target line, falling back to its end.
        if !self.move_to(buffer, first_try) {
            let target_offset = match buffer.line_length(target_line) {
                Some(length) => length,
                None => 0,
            };
            self.move_to(buffer, Position { line: target_line, offset: target_offset });
            // Moving the position successfully updates the sticky offset, but we
            // haven't actually moved to where we really wanted to go (offset-wise).
            // Restore the original desired offset; it might be available later.
            self.sticky_offset = first_try.offset;
        }
    }

    /// Decrements the cursor offset. The location is bounds-checked against
    /// the buffer and the cursor will not be updated if it is out-of-bounds.
    /// At the start of a line nothing changes.
    pub fn move_left(&mut self, buffer: &GapBuffer)
        requires
            buffer.wf(),
        ensures
            old(self).position.offset == 0 ==> *final(self) == *old(self),
            old(self).position.offset > 0 ==> moved_or_kept(
                *old(self),
                *final(self),
                *buffer,
                Position {
                    line: old(self).position.line,
                    offset: (old(self).position.offset - 1) as usize,
                },
            ),
    {
        // Don't bother if we are already at the left edge.
        if self.position.offset == 0 {
            return ;
        }
        let new_position = Position {
            line: self.position.line,
            offset: self.position.offset - 1,
        };
        self.move_to(buffer, new_position);
    }

    /// Increments the cursor offset. The location is bounds-checked against
    /// the buffer and the cursor will not be updated if it is out-of-bounds.
    pub fn move_right(&mut self, buffer: &GapBuffer)
        requires
            buffer.wf(),
            old(self).position.offset < usize::MAX,
        ensures
            moved_or_kept(
                *old(self),
                *final(self),
                *buffer,
                Position {
                    line: old(self).position.line,
                    offset: (old(self).position.offset + 1) as usize,
                },
            ),
    {
        let new_position = Position {
            line: self.position.line,
            offset: self.position.offset + 1,
        };
        self.move_to(buffer, new_position);
    }

    /// Sets the cursor offset to 0: the start of the current line.
    pub fn move_to_start_of_line(&mut self, buffer: &GapBuffer)
        requires
            buffer.wf(),
        ensures
            moved_or_kept(
                *old(self),
                *final(self),
                *buffer,
                Position { line: old(self).position.line, offset: 0 },
            ),
    {
        let new_position = Position { line: self.position.line, offset: 0 };
        self.move_to(buffer, new_position);
    }

    /// Moves the cursor offset to after the last character on the current
    /// line. When the current line does not exist, nothing changes.
    pub fn move_to_end_of_line(&mut self, buffer: &GapBuffer)
        requires
            buffer.wf(),
        ensures
            match line_length(buffer.gb_clusters(), old(self).position.line as int) {
                Some(length) => moved_or_kept(
                    *old(self),
                    *final(self),
                    *buffer,
                    Position { line: old(self).position.line, offset: length as usize },
                ),
                None => *final(self) == *old(self),
            },
    {
        match buffer.line_length(self.position.line) {
            Some(length) => {
                let new_position = Position { line: self.position.line, offset: length };
                self.move_to(buffer, new_position);
            },
            None => {
            },
        }
    }

    /// Moves the cursor to the last line in the buffer, at the sticky
    /// offset when that line is long enough and at the line's end
    /// otherwise. On a buffer ending in a newline, the last line is the
    /// empty line after it.
    pub fn move_to_last_line(&mut self, buffer: &GapBuffer)
        requires
            buffer.wf(),
        ensures
            ({
                let line = newline_count(buffer.gb_clusters());
                let length = tail_length(buffer.gb_clusters());
                let target = if length < old(self).sticky_offset {
                    Position { line: line as usize, offset: length as usize }
                } else {
                    Position { line: line as usize, offset: old(self).sticky_offset }
                };
                moved_or_kept(*old(self), *final(self), *buffer, target)
            }),
    {
        let (line, length) = buffer.last_line();
        let target_position = if length < self.sticky_offset {
            // Current offset is beyond the last line's length; move to the end of it.
            Position { line, offset: length }
        } else {
            // Current offset is available on the last line; go there.
            Position { line, offset: self.sticky_offset }
        };
        self.move_to(buffer, target_position);
    }

    /// Moves the cursor to the first line in the buffer, at the sticky
    /// offset when that line is long enough and at the line's end
    /// otherwise.
    pub fn move_to_first_line(&mut self, buffer: &GapBuffer)
        requires
            buffer.wf(),
        ensures
            ({
                let length = match line_length(buffer.gb_clusters(), 0) {
                    Some(n) => n,
                    None => 0,
                };
                let target = if length < old(self).sticky_offset {
                    Position { line: 0, offset: length as usize }
                } else {
                    Position { line: 0, offset: old(self).sticky_offset }
                };
                moved_or_kept(*old(self), *final(self), *buffer, target)
            }),
    {
        let length = match buffer.line_length(0) {
            Some(n) => n,
            None => 0,
        };
        let target_position = if length < self.sticky_offset {
            // Current offset is beyond the first line's length; move to the end of it.
            Position { line: 0, offset: length }
        } else {
            // Current offset is available on the first line; go there.
            Position { line: 0, offset: self.sticky_offset }
        };
        self.move_to(buffer, target_position);
    }
}

/// The outcome of a bounds-checked move towards `target`: either the
/// target was in bounds and the cursor now rests there with its sticky
/// offset set to the target's offset, or nothing changed.
pub open spec fn moved_or_kept(
    old_c: Cursor,
    new_c: Cursor,
    buffer: GapBuffer,
    target: Position,
) -> bool {
    if buffer.resolve(target) is Some {
        new_c.position == target && new_c.sticky_offset == target.offset
    } else {
        new_c == old_c
    }
}

/// The outcome of a vertical step to `target_line`: the sticky offset is
/// tried first; when the target line is too short the cursor falls back to
/// its end, keeping the originally desired column sticky; when even that
/// fails the cursor stays put.
pub open spec fn final_vertical_state(
    old_c: Cursor,
    new_c: Cursor,
    buffer: GapBuffer,
    target_line: int,
) -> bool {
    let sticky = old_c.sticky_offset;
    let first_try = Position { line: target_line as usize, offset: sticky };
    if buffer.resolve(first_try) is Some {
        new_c.position == first_try && new_c.sticky_offset == sticky
    } else {
        let fallback_offset = match line_length(buffer.gb_clusters(), target_line) {
            Some(n) => n,
            None => 0,
        };
        let fallback = Position { line: target_line as usize, offset: fallback_offset as usize };
        if buffer.resolve(fallback) is Some {
            new_c.position == fallback && new_c.sticky_offset == sticky
        } else {
            new_c == old_c
        }
    }
}

} // verus!
