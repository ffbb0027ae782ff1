//! Span shapes: the "vector" between two buffer positions.

use vstd::prelude::*;
use vstd::utf8::encode_utf8;
use crate::text::{byte_newlines, clusters, count_newline_bytes, grapheme_clusters, tail_length,
    walk_last_line, views};
use vstd::string::StrSliceExecFns;

verus! {

/// A vector value representing the shape of a span in a buffer. Unlike the
/// Range type, whose two positions are absolutes, a Distance is meant to be
/// used relative to a Position.
#[derive(Clone, Copy, Debug, PartialEq, Eq, Structural)]
pub struct Distance {
    pub lines: usize,
    pub offset: usize,
}

impl Distance {
    /// Calculates the distance covered by a string: the number of line
    /// breaks it holds, and the grapheme length of its last line.
    pub fn of_str(from: &str) -> (r: Distance)
        ensures
            r.lines == byte_newlines(encode_utf8(from@)),
            r.offset == tail_length(clusters(encode_utf8(from@))),
    {
        let bytes = from.as_bytes_vec();
        proof {
            vstd::utf8::encode_utf8_valid_utf8(from@);
        }
        let lines = count_newline_bytes(bytes.as_slice());
        let gs = grapheme_clusters(bytes.as_slice());
        let last = walk_last_line(&gs);
        Distance { lines, offset: last.1 }
    }
}

} // verus!
