//! The library's general laws, proved once and for all inputs.
//!
//! The lemmas here relate the contracts of the gap buffer's operations:
//! they quantify over an arbitrary split of the buffer's grapheme
//! clusters around the edit, so each holds wherever the segmentation of
//! the affected text splits cleanly at the edit's boundaries. Text whose
//! clusters merge across an edit boundary (such as a combining mark
//! inserted directly after its base character) falls outside these
//! hypotheses, and outside the round-trip behaviour itself.

use vstd::prelude::*;
use vstd::utf8::{decode_utf8, encode_utf8};
use crate::gap_buffer::GapBuffer;
use crate::operations::{insert_end, spec_range};
use crate::position::Position;
use crate::range::Range;
use crate::text::{
    byte_newlines, cluster_offset, clusters, lemma_newline_count_nonneg, lemma_offset_at_boundary,
    lemma_stats_concat, newline_count, tail_length,
};

verus! {

/// The segmentation of the buffer splits as `a ++ t ++ b`, with each part
/// the segmentation of its own bytes.
pub open spec fn splits_cleanly(
    a: Seq<Seq<u8>>,
    t: Seq<Seq<u8>>,
    b: Seq<Seq<u8>>,
    tb: Seq<u8>,
    prefix: Seq<u8>,
    suffix: Seq<u8>,
) -> bool {
    &&& a.flatten() == prefix
    &&& t.flatten() == tb
    &&& b.flatten() == suffix
    &&& clusters(prefix) == a
    &&& clusters(suffix) == b
    &&& clusters(tb) == t
    &&& clusters(prefix + tb) == a + t
    &&& clusters(tb + suffix) == t + b
    &&& clusters(prefix + tb + suffix) == a + t + b
}

/// The position addressing the boundary after the clusters `a`.
pub open spec fn boundary_position(a: Seq<Seq<u8>>, p: Position) -> bool {
    p.line == newline_count(a) && p.offset == tail_length(a)
}

/// The line and grapheme counts of the inserted text agree between its
/// bytes and its clusters, and fit the machine: every `\n` byte is its
/// own cluster, as it is whenever no cluster carries a line break inside
/// it.
pub open spec fn newline_aligned(t: Seq<Seq<u8>>, tb: Seq<u8>, p: Position) -> bool {
    &&& byte_newlines(tb) == newline_count(t)
    &&& p.line + newline_count(t) <= usize::MAX
    &&& newline_count(t) > 0 ==> tail_length(t) <= usize::MAX
    &&& newline_count(t) == 0 ==> p.offset + t.len() <= usize::MAX
}

/// Running an insert of `text` at a clean cluster boundary and then
/// reversing it is the identity on buffer content.
///
/// `g1` is the buffer before the insert, `g2` after it, and `g3` after
/// the reverse; `a` and `b` are the cluster runs before and after the
/// insertion point, and `t` the inserted text's clusters.
pub proof fn lemma_insert_then_reverse(
    g1: GapBuffer,
    g2: GapBuffer,
    g3: GapBuffer,
    text: Seq<char>,
    p: Position,
    a: Seq<Seq<u8>>,
    t: Seq<Seq<u8>>,
    b: Seq<Seq<u8>>,
)
    requires
        splits_cleanly(
            a,
            t,
            b,
            encode_utf8(text),
            a.flatten(),
            b.flatten(),
        ),
        g1.content() == a.flatten() + b.flatten(),
        g1.insert_basis(encode_utf8(text)) == a + b,
        boundary_position(a, p),
        newline_aligned(t, encode_utf8(text), p),
        g1.content().len() + encode_utf8(text).len() <= usize::MAX,
        GapBuffer::insert_step(g1, g2, encode_utf8(text), p),
        GapBuffer::delete_step(g2, g3, spec_range(p, insert_end(p, text))),
    ensures
        g3.content() == g1.content(),
{
    let tb = encode_utf8(text);
    let prefix = a.flatten();
    let suffix = b.flatten();
    let c = prefix.len() as int;

    // The insert resolves the position at the boundary after `a`.
    lemma_offset_at_boundary(a, b);
    assert(cluster_offset(a + b, p.line as int, p.offset as int) == Some(c));
    assert(g1.content().take(c) =~= prefix);
    assert(g1.content().skip(c) =~= suffix);
    assert(g2.before() == prefix + tb);
    assert(g2.after() == suffix);
    assert(g2.content() =~= prefix + tb + suffix);

    // The end position computed by the reverse addresses the boundary
    // after `a ++ t`.
    let end = insert_end(p, text);
    lemma_stats_concat(a, t);
    lemma_newline_count_nonneg(a);
    lemma_newline_count_nonneg(t);
    crate::text::lemma_newline_tail_nonneg(t);
    crate::text::lemma_newline_tail_nonneg(a);
    assert(end.line == newline_count(a + t));
    assert(end.offset == tail_length(a + t));
    assert(boundary_position(a + t, end));

    // The range the reverse deletes runs from the boundary after `a` to
    // the boundary after `a ++ t`.
    let range = spec_range(p, end);
    assert(range == (Range { start: p, end: end })) by {
        if crate::position::pos_lt(end, p) {
            assert(false);
        }
    }

    // In the buffer after the insert, the start resolves at the same
    // byte boundary, and the end right after the inserted bytes.
    assert(g2.gb_clusters() =~= a + t + b) by {
        assert(clusters(g2.before()) == a + t);
        assert(clusters(g2.after()) == b);
        assert((a + t) + b =~= a + (t + b));
    }
    assert(a + (t + b) =~= (a + t) + b);
    lemma_offset_at_boundary(a, t + b);
    assert(g2.resolve(p) == Some(c));

    // The deletion's end resolves within the re-split halves, which
    // segment the same way.
    let mid = clusters(g2.content().take(c)) + clusters(g2.content().skip(c));
    assert(g2.content().take(c) =~= prefix);
    assert(g2.content().skip(c) =~= tb + suffix);
    assert(mid == a + (t + b));
    lemma_offset_at_boundary(a + t, b);
    let e = c + tb.len();
    assert((a + t).flatten().len() == e) by {
        vstd::seq_lib::lemma_flatten_concat(a, t);
    }
    assert(cluster_offset(mid, end.line as int, end.offset as int) == Some(e));
    assert(g2.delete_end(range, c) == e);

    // The deletion removes exactly the inserted bytes.
    assert(g3.content() == g2.content().take(c) + g2.content().skip(e));
    assert(g2.content().skip(e) =~= suffix);
    assert(g3.content() =~= g1.content());
}

/// Running a delete over a range between clean cluster boundaries and
/// then reversing it is the identity on buffer content.
///
/// `g1` is the buffer before the delete, `g2` after it, and `g3` after
/// the reverse; `a` and `b` are the cluster runs the range leaves in
/// place, and `t` the clusters it covers. The captured text `text` is
/// what the delete read out of the range.
pub proof fn lemma_delete_then_reverse(
    g1: GapBuffer,
    g2: GapBuffer,
    g3: GapBuffer,
    text: Seq<char>,
    range: Range,
    a: Seq<Seq<u8>>,
    t: Seq<Seq<u8>>,
    b: Seq<Seq<u8>>,
)
    requires
        splits_cleanly(
            a,
            t,
            b,
            encode_utf8(text),
            a.flatten(),
            b.flatten(),
        ),
        g1.content() == a.flatten() + encode_utf8(text) + b.flatten(),
        g1.gb_clusters() == a + t + b,
        boundary_position(a, range.start),
        boundary_position(a + t, range.end),
        g1.content().len() <= usize::MAX,
        GapBuffer::delete_step(g1, g2, range),
        g2.spec_gap_length() >= encode_utf8(text).len(),
        GapBuffer::insert_step(g2, g3, encode_utf8(text), range.start),
    ensures
        g3.content() == g1.content(),
{
    let tb = encode_utf8(text);
    let prefix = a.flatten();
    let suffix = b.flatten();
    let c = prefix.len() as int;
    let e = c + tb.len();

    // The range's endpoints resolve at the boundaries around `t`.
    assert(a + t + b =~= a + (t + b));
    lemma_offset_at_boundary(a, t + b);
    assert(g1.resolve(range.start) == Some(c));
    assert(g1.content().take(c) =~= prefix);
    assert(g1.content().skip(c) =~= tb + suffix);

    let mid = clusters(g1.content().take(c)) + clusters(g1.content().skip(c));
    assert(mid == a + (t + b));
    lemma_offset_at_boundary(a + t, b);
    assert((a + t).flatten().len() == e) by {
        vstd::seq_lib::lemma_flatten_concat(a, t);
    }
    assert((a + t) + b =~= a + (t + b));
    assert(cluster_offset(mid, range.end.line as int, range.end.offset as int) == Some(e));
    assert(g1.delete_end(range, c) == e);

    // The delete leaves the two sides in place.
    assert(g2.before() == g1.content().take(c));
    assert(g2.after() == g1.content().skip(e));
    assert(g2.before() =~= prefix);
    assert(g2.after() =~= suffix);
    assert(g2.content() =~= prefix + suffix);

    // Re-inserting the captured text at the range's start restores the
    // content. The gap still covers the deleted bytes, so no growth
    // happens and the position resolves against the two halves.
    assert(g2.gb_clusters() == a + b);
    lemma_offset_at_boundary(a, b);
    assert(g2.content().len() + tb.len() <= usize::MAX);
    assert(g2.insert_basis(tb) == a + b);
    assert(cluster_offset(a + b, range.start.line as int, range.start.offset as int) == Some(
        c,
    ));
    assert(g3.content() == g2.content().take(c) + tb + g2.content().skip(c));
    assert(g2.content().take(c) =~= prefix);
    assert(g2.content().skip(c) =~= suffix);
    assert(g3.content() =~= g1.content());
}

/// Undoing an insert and then redoing it restores the content the insert
/// had produced: the reverse deletes the inserted clusters, and running
/// the insert again puts the same bytes back at the same boundary.
pub proof fn lemma_insert_undo_redo(
    g2: GapBuffer,
    g3: GapBuffer,
    g4: GapBuffer,
    text: Seq<char>,
    p: Position,
    a: Seq<Seq<u8>>,
    t: Seq<Seq<u8>>,
    b: Seq<Seq<u8>>,
)
    requires
        splits_cleanly(
            a,
            t,
            b,
            encode_utf8(text),
            a.flatten(),
            b.flatten(),
        ),
        g2.content() == a.flatten() + encode_utf8(text) + b.flatten(),
        g2.gb_clusters() == a + t + b,
        boundary_position(a, p),
        newline_aligned(t, encode_utf8(text), p),
        g2.content().len() <= usize::MAX,
        GapBuffer::delete_step(g2, g3, spec_range(p, insert_end(p, text))),
        g3.spec_gap_length() >= encode_utf8(text).len(),
        GapBuffer::insert_step(g3, g4, encode_utf8(text), p),
    ensures
        g4.content() == g2.content(),
{
    let tb = encode_utf8(text);
    let prefix = a.flatten();
    let suffix = b.flatten();
    let c = prefix.len() as int;
    let e = c + tb.len();

    // The end position computed by the reverse addresses the boundary
    // after `a ++ t`.
    let end = insert_end(p, text);
    lemma_stats_concat(a, t);
    lemma_newline_count_nonneg(a);
    lemma_newline_count_nonneg(t);
    crate::text::lemma_newline_tail_nonneg(t);
    crate::text::lemma_newline_tail_nonneg(a);
    assert(boundary_position(a + t, end));
    let range = spec_range(p, end);
    assert(range == (Range { start: p, end: end })) by {
        if crate::position::pos_lt(end, p) {
            assert(false);
        }
    }

    // The undo deletes exactly the inserted clusters.
    assert(a + t + b =~= a + (t + b));
    lemma_offset_at_boundary(a, t + b);
    assert(g2.resolve(range.start) == Some(c));
    assert(g2.content().take(c) =~= prefix);
    assert(g2.content().skip(c) =~= tb + suffix);
    let mid = clusters(g2.content().take(c)) + clusters(g2.content().skip(c));
    assert(mid == a + (t + b));
    lemma_offset_at_boundary(a + t, b);
    assert((a + t).flatten().len() == e) by {
        vstd::seq_lib::lemma_flatten_concat(a, t);
    }
    assert((a + t) + b =~= a + (t + b));
    assert(cluster_offset(mid, end.line as int, end.offset as int) == Some(e));
    assert(g2.delete_end(range, c) == e);
    assert(g3.before() =~= prefix);
    assert(g3.after() =~= suffix);
    assert(g3.content() =~= prefix + suffix);

    // The redo re-inserts the same bytes at the same boundary.
    assert(g3.gb_clusters() == a + b);
    lemma_offset_at_boundary(a, b);
    assert(g3.content().len() + tb.len() <= usize::MAX);
    assert(g3.insert_basis(tb) == a + b);
    assert(cluster_offset(a + b, p.line as int, p.offset as int) == Some(c));
    assert(g4.content() == g3.content().take(c) + tb + g3.content().skip(c));
    assert(g3.content().take(c) =~= prefix);
    assert(g3.content().skip(c) =~= suffix);
    assert(g4.content() =~= g2.content());
}

/// Undoing a delete and then redoing it removes the same clusters again:
/// the reverse re-inserts the captured text, and running the delete once
/// more takes the content back to its post-delete form.
pub proof fn lemma_delete_undo_redo(
    g2: GapBuffer,
    g3: GapBuffer,
    g4: GapBuffer,
    text: Seq<char>,
    range: Range,
    a: Seq<Seq<u8>>,
    t: Seq<Seq<u8>>,
    b: Seq<Seq<u8>>,
)
    requires
        splits_cleanly(
            a,
            t,
            b,
            encode_utf8(text),
            a.flatten(),
            b.flatten(),
        ),
        g2.content() == a.flatten() + b.flatten(),
        g2.gb_clusters() == a + b,
        boundary_position(a, range.start),
        boundary_position(a + t, range.end),
        g2.content().len() + encode_utf8(text).len() <= usize::MAX,
        g2.spec_gap_length() >= encode_utf8(text).len(),
        GapBuffer::insert_step(g2, g3, encode_utf8(text), range.start),
        GapBuffer::delete_step(g3, g4, range),
    ensures
        g4.content() == g2.content(),
{
    let tb = encode_utf8(text);
    let prefix = a.flatten();
    let suffix = b.flatten();
    let c = prefix.len() as int;
    let e = c + tb.len();

    // The undo re-inserts the captured text at the range's start.
    lemma_offset_at_boundary(a, b);
    assert(g2.insert_basis(tb) == a + b);
    assert(cluster_offset(a + b, range.start.line as int, range.start.offset as int) == Some(
        c,
    ));
    assert(g2.content().take(c) =~= prefix);
    assert(g2.content().skip(c) =~= suffix);
    assert(g3.before() == prefix + tb);
    assert(g3.after() == suffix);
    assert(g3.content() =~= prefix + tb + suffix);

    // The redo deletes the same clusters again.
    assert(g3.gb_clusters() =~= a + (t + b)) by {
        assert(clusters(g3.before()) == a + t);
        assert(clusters(g3.after()) == b);
        assert((a + t) + b =~= a + (t + b));
    }
    lemma_offset_at_boundary(a, t + b);
    assert(g3.resolve(range.start) == Some(c));
    let mid = clusters(g3.content().take(c)) + clusters(g3.content().skip(c));
    assert(g3.content().take(c) =~= prefix);
    assert(g3.content().skip(c) =~= tb + suffix);
    assert(mid == a + (t + b));
    lemma_offset_at_boundary(a + t, b);
    assert((a + t).flatten().len() == e) by {
        vstd::seq_lib::lemma_flatten_concat(a, t);
    }
    assert((a + t) + b =~= a + (t + b));
    assert(cluster_offset(mid, range.end.line as int, range.end.offset as int) == Some(e));
    assert(g3.delete_end(range, c) == e);
    assert(g4.content() == g3.content().take(c) + g3.content().skip(e));
    assert(g3.content().skip(e) =~= suffix);
    assert(g4.content() =~= g2.content());
}

/// Undoing a whole-buffer replacement and redoing it restores the new
/// content, unconditionally: both directions install a stored string
/// wholesale.
pub proof fn lemma_replace_undo_redo(
    b1: crate::buffer::Buffer,
    b2: crate::buffer::Buffer,
    b3: crate::buffer::Buffer,
    old_content: Seq<char>,
    new_content: Seq<char>,
)
    requires
        crate::operations::replaced_content(b1, b2, old_content),
        crate::operations::replaced_content(b2, b3, new_content),
        b1.gap.content() == encode_utf8(new_content),
    ensures
        b2.gap.content() == encode_utf8(old_content),
        b3.gap.content() == b1.gap.content(),
{
}

/// Deleting at the very end of the buffer leaves the content unchanged:
/// the range starts at the final boundary, so nothing lies inside it.
pub proof fn lemma_delete_at_end(g1: GapBuffer, g2: GapBuffer, range: Range)
    requires
        boundary_position(g1.gb_clusters(), range.start),
        GapBuffer::delete_step(g1, g2, range),
        g1.gb_clusters().flatten() == g1.content(),
    ensures
        g2.content() == g1.content(),
{
    let gs = g1.gb_clusters();
    assert(gs + Seq::<Seq<u8>>::empty() =~= gs);
    lemma_offset_at_boundary(gs, Seq::<Seq<u8>>::empty());
    let c = g1.content().len() as int;
    assert(g1.resolve(range.start) == Some(c));
    let e = g1.delete_end(range, c);
    assert(c <= e <= g1.content().len());
    assert(g2.content() == g1.content().take(c) + g1.content().skip(e));
    assert(g2.content() =~= g1.content());
}

/// Inserting the bytes `t` into `x` at offset `c`, as the buffer
/// operations do at a resolved boundary.
pub open spec fn splice(x: Seq<u8>, c: int, t: Seq<u8>) -> Seq<u8> {
    x.take(c) + t + x.skip(c)
}

/// Removing `n` bytes from `x` at offset `c`.
pub open spec fn unsplice(x: Seq<u8>, c: int, n: int) -> Seq<u8> {
    x.take(c) + x.skip(c + n)
}

/// Every edit of the sequence lands within the content as it stands when
/// the edit's turn comes.
pub open spec fn edits_in_bounds(x: Seq<u8>, edits: Seq<(int, Seq<u8>)>) -> bool
    decreases edits.len(),
{
    if edits.len() == 0 {
        true
    } else {
        0 <= edits[0].0 <= x.len() && edits_in_bounds(
            splice(x, edits[0].0, edits[0].1),
            edits.skip(1),
        )
    }
}

/// The content after running every edit of the sequence, in order.
pub open spec fn splice_all(x: Seq<u8>, edits: Seq<(int, Seq<u8>)>) -> Seq<u8>
    decreases edits.len(),
{
    if edits.len() == 0 {
        x
    } else {
        splice_all(splice(x, edits[0].0, edits[0].1), edits.skip(1))
    }
}

/// The content after undoing every edit of the sequence, newest first.
pub open spec fn unsplice_all(y: Seq<u8>, edits: Seq<(int, Seq<u8>)>) -> Seq<u8>
    decreases edits.len(),
{
    if edits.len() == 0 {
        y
    } else {
        unsplice(unsplice_all(y, edits.skip(1)), edits[0].0, edits[0].1.len() as int)
    }
}

/// Removing an insertion restores the content it was made in.
pub proof fn lemma_unsplice_splice(x: Seq<u8>, c: int, t: Seq<u8>)
    requires
        0 <= c <= x.len(),
    ensures
        unsplice(splice(x, c, t), c, t.len() as int) == x,
{
    let y = splice(x, c, t);
    assert(y.take(c) =~= x.take(c));
    assert(y.skip(c + t.len()) =~= x.skip(c));
    assert(unsplice(y, c, t.len() as int) =~= x);
}

/// For all sequences of insertions on the content model, undoing every
/// one of them, newest first, restores the initial content exactly.
///
/// Together with the operations' contracts, which pin each edit to a
/// splice at its resolved boundary, this is the content half of
/// exhaustive undo.
pub proof fn lemma_exhaustive_undo_restores(x: Seq<u8>, edits: Seq<(int, Seq<u8>)>)
    requires
        edits_in_bounds(x, edits),
    ensures
        unsplice_all(splice_all(x, edits), edits) == x,
    decreases edits.len(),
{
    if edits.len() > 0 {
        let mid = splice(x, edits[0].0, edits[0].1);
        lemma_exhaustive_undo_restores(mid, edits.skip(1));
        assert(unsplice_all(splice_all(x, edits), edits.skip(1)) == mid);
        lemma_unsplice_splice(x, edits[0].0, edits[0].1);
    }
}

/// For all sequences of insertions, exhaustively undoing them and then
/// replaying every edit, oldest first, restores the content to its
/// pre-undo value.
pub proof fn lemma_undo_then_redo_restores(x: Seq<u8>, edits: Seq<(int, Seq<u8>)>)
    requires
        edits_in_bounds(x, edits),
    ensures
        splice_all(unsplice_all(splice_all(x, edits), edits), edits) == splice_all(x, edits),
{
    lemma_exhaustive_undo_restores(x, edits);
}

/// The two counts of a concatenation's distance combine by the line
/// rule: line counts add outright; when the second part has a line
/// break, the last line is its own, and otherwise the last lines join.
pub proof fn lemma_distance_concat(b1: Seq<u8>, b2: Seq<u8>)
    requires
        clusters(b1 + b2) == clusters(b1) + clusters(b2),
    ensures
        byte_newlines(b1 + b2) == byte_newlines(b1) + byte_newlines(b2),
        newline_count(clusters(b2)) != 0 ==> tail_length(clusters(b1 + b2)) == tail_length(
            clusters(b2),
        ),
        newline_count(clusters(b2)) == 0 ==> tail_length(clusters(b1 + b2)) == tail_length(
            clusters(b1),
        ) + clusters(b2).len(),
{
    lemma_byte_newlines_concat(b1, b2);
    lemma_stats_concat(clusters(b1), clusters(b2));
}

/// Counting `\n` bytes distributes over concatenation.
pub proof fn lemma_byte_newlines_concat(b1: Seq<u8>, b2: Seq<u8>)
    ensures
        byte_newlines(b1 + b2) == byte_newlines(b1) + byte_newlines(b2),
    decreases b1.len(),
{
    if b1.len() == 0 {
        assert(b1 + b2 =~= b2);
    } else {
        assert((b1 + b2).skip(1) =~= b1.skip(1) + b2);
        lemma_byte_newlines_concat(b1.skip(1), b2);
    }
}

/// A fresh text store built from a string holds exactly that string:
/// decoding the encoded characters gives them back.
pub proof fn lemma_fresh_content_round_trip(s: Seq<char>)
    ensures
        decode_utf8(encode_utf8(s)) == s,
{
    vstd::utf8::encode_utf8_decode_utf8(s);
}

} // verus!
