//! Byte-level text model shared by the gap buffer and the cursor:
//! UTF-8 validity, grapheme-cluster segmentation, and the resolution of
//! `(line, offset)` positions to byte offsets.
//!
//! Buffer content is modelled as a sequence of bytes that is valid UTF-8.
//! Offsets within a line count grapheme clusters, and a line ends at a
//! cluster that is exactly the single byte `\n`.

use vstd::prelude::*;
use vstd::seq_lib::lemma_flatten_concat;
use vstd::utf8::valid_utf8;
use unicode_segmentation::UnicodeSegmentation;

verus! {

/// The extended grapheme cluster segmentation of a valid UTF-8 byte
/// sequence: each element is the byte run of one user-perceived character.
pub uninterp spec fn clusters(s: Seq<u8>) -> Seq<Seq<u8>>;

/// The byte sequences held by a sequence of byte vectors.
pub open spec fn views(gs: Seq<Vec<u8>>) -> Seq<Seq<u8>> {
    gs.map_values(|v: Vec<u8>| v@)
}

/// Relies on `unicode_segmentation::UnicodeSegmentation::graphemes` (with
/// extended grapheme clusters): the iterator yields non-empty substrings of
/// the input whose concatenation is the input itself.
#[verifier::external_body]
pub fn grapheme_clusters(bytes: &[u8]) -> (r: Vec<Vec<u8>>)
    requires
        valid_utf8(bytes@),
    ensures
        views(r@) == clusters(bytes@),
        views(r@).flatten() == bytes@,
        forall|i: int| 0 <= i < r@.len() ==> (#[trigger] r@[i])@.len() > 0,
        forall|i: int| 0 <= i < r@.len() ==> valid_utf8((#[trigger] r@[i])@),
{
    let s = core::str::from_utf8(bytes).unwrap();
    s.graphemes(true).map(|g| g.as_bytes().to_vec()).collect()
}

/// Relies on `String::from_utf8`: decoding a valid UTF-8 byte sequence
/// yields exactly the character sequence it encodes, whose encoding is the
/// original bytes.
#[verifier::external_body]
pub fn bytes_to_string(bytes: &[u8]) -> (r: String)
    requires
        valid_utf8(bytes@),
    ensures
        r@ == vstd::utf8::decode_utf8(bytes@),
        vstd::utf8::encode_utf8(r@) == bytes@,
{
    String::from_utf8(bytes.to_vec()).unwrap()
}

/// Relies on `String::from_utf8_lossy`: on valid UTF-8 input the decoding
/// is exact; on other input replacement text stands in for the offending
/// bytes.
#[verifier::external_body]
pub fn bytes_to_string_lossy(bytes: &[u8]) -> (r: String)
    ensures
        valid_utf8(bytes@) ==> r@ == vstd::utf8::decode_utf8(bytes@),
{
    String::from_utf8_lossy(bytes).into_owned()
}

/// Whether a grapheme cluster is the line terminator: the single byte `\n`.
pub open spec fn is_newline(g: Seq<u8>) -> bool {
    g == seq![10u8]
}

/// Shifts a resolved byte offset by `k`, preserving failure.
pub open spec fn opt_shift(o: Option<int>, k: int) -> Option<int> {
    match o {
        Some(v) => Some(v + k),
        None => None,
    }
}

/// The byte offset of the boundary addressed by the position `(line, off)`,
/// relative to the start of the cluster sequence `gs`. The walk starts at
/// line 0, offset 0; a `\n` cluster ends the current line, and every other
/// cluster advances the offset by one. `None` when the position is past the
/// end of its line or past the last line.
pub open spec fn cluster_offset(gs: Seq<Seq<u8>>, line: int, off: int) -> Option<int>
    decreases gs.len(),
{
    if line == 0 && off == 0 {
        Some(0)
    } else if line < 0 || off < 0 || gs.len() == 0 {
        None
    } else if is_newline(gs[0]) {
        if line == 0 {
            None
        } else {
            opt_shift(cluster_offset(gs.skip(1), line - 1, off), gs[0].len() as int)
        }
    } else {
        if line == 0 {
            opt_shift(cluster_offset(gs.skip(1), 0, off - 1), gs[0].len() as int)
        } else {
            opt_shift(cluster_offset(gs.skip(1), line, off), gs[0].len() as int)
        }
    }
}

/// The number of grapheme clusters on line `line` of `gs`, or `None` when
/// the line does not exist. A trailing `\n` cluster opens one further,
/// empty line.
pub open spec fn line_length(gs: Seq<Seq<u8>>, line: int) -> Option<int>
    decreases gs.len(),
{
    if line < 0 {
        None
    } else if gs.len() == 0 {
        if line == 0 {
            Some(0)
        } else {
            None
        }
    } else if is_newline(gs[0]) {
        if line == 0 {
            Some(0)
        } else {
            line_length(gs.skip(1), line - 1)
        }
    } else {
        if line == 0 {
            match line_length(gs.skip(1), 0) {
                Some(n) => Some(n + 1),
                None => None,
            }
        } else {
            line_length(gs.skip(1), line)
        }
    }
}

/// The number of `\n` clusters in `gs`: the index of the last line.
pub open spec fn newline_count(gs: Seq<Seq<u8>>) -> int
    decreases gs.len(),
{
    if gs.len() == 0 {
        0
    } else {
        (if is_newline(gs[0]) {
            1int
        } else {
            0int
        }) + newline_count(gs.skip(1))
    }
}

/// There is never a negative number of `\n` clusters.
pub proof fn lemma_newline_count_nonneg(gs: Seq<Seq<u8>>)
    ensures
        newline_count(gs) >= 0,
    decreases gs.len(),
{
    if gs.len() > 0 {
        lemma_newline_count_nonneg(gs.skip(1));
    }
}

/// The number of clusters after the last `\n` cluster of `gs`: the grapheme
/// length of the last line.
pub open spec fn tail_length(gs: Seq<Seq<u8>>) -> int
    decreases gs.len(),
{
    if gs.len() == 0 {
        0
    } else if newline_count(gs) == 0 {
        gs.len() as int
    } else {
        tail_length(gs.skip(1))
    }
}

/// A last line never has a negative number of clusters.
pub proof fn lemma_newline_tail_nonneg(gs: Seq<Seq<u8>>)
    ensures
        tail_length(gs) >= 0,
    decreases gs.len(),
{
    if gs.len() > 0 && newline_count(gs) != 0 {
        lemma_newline_tail_nonneg(gs.skip(1));
    }
}

/// The number of `\n` bytes in a byte sequence. In UTF-8 the byte `\n`
/// only ever encodes the newline character itself.
pub open spec fn byte_newlines(b: Seq<u8>) -> int
    decreases b.len(),
{
    if b.len() == 0 {
        0
    } else {
        (if b[0] == 10u8 {
            1int
        } else {
            0int
        }) + byte_newlines(b.skip(1))
    }
}

/// No byte sequence holds more `\n` bytes than bytes.
pub proof fn lemma_byte_newlines_bound(b: Seq<u8>)
    ensures
        0 <= byte_newlines(b) <= b.len(),
    decreases b.len(),
{
    if b.len() > 0 {
        lemma_byte_newlines_bound(b.skip(1));
    }
}

/// Counts the `\n` bytes in a byte slice.
pub(crate) fn count_newline_bytes(bytes: &[u8]) -> (r: usize)
    ensures
        r == byte_newlines(bytes@),
{
    let ghost bv = bytes@;
    let mut i: usize = 0;
    let mut count: usize = 0;
    let len = bytes.len();
    proof {
        assert(bv.skip(0) =~= bv);
    }
    while i < len
        invariant
            0 <= i <= len,
            len == bv.len(),
            bv == bytes@,
            count <= i,
            byte_newlines(bv) == count + byte_newlines(bv.skip(i as int)),
        decreases len - i,
    {
        let b = *vstd::slice::slice_index_get(bytes, i);
        proof {
            let rest = bv.skip(i as int);
            assert(rest[0] == bv[i as int]);
            assert(rest.skip(1) =~= bv.skip(i as int + 1));
            assert(byte_newlines(rest) == (if rest[0] == 10u8 {
                1int
            } else {
                0int
            }) + byte_newlines(rest.skip(1)));
        }
        if b == 10u8 {
            count = count + 1;
        }
        i = i + 1;
    }
    proof {
        assert(bv.skip(len as int).len() == 0);
    }
    count
}

/// Newline counts add over concatenation, and the last line of a
/// concatenation is the second part's when it has line breaks, and the
/// first part's last line extended by the whole second part otherwise.
pub proof fn lemma_stats_concat(a: Seq<Seq<u8>>, b: Seq<Seq<u8>>)
    ensures
        newline_count(a + b) == newline_count(a) + newline_count(b),
        tail_length(a + b) == if newline_count(b) != 0 {
            tail_length(b)
        } else {
            tail_length(a) + b.len()
        },
    decreases a.len(),
{
    lemma_newline_count_nonneg(a);
    lemma_newline_count_nonneg(b);
    if a.len() == 0 {
        assert(a + b =~= b);
    } else {
        assert((a + b).skip(1) =~= a.skip(1) + b);
        lemma_stats_concat(a.skip(1), b);
        lemma_newline_count_nonneg(a.skip(1));
    }
}

/// The boundary at the end of the cluster prefix `a` is addressed by the
/// position after `a`'s last line, and resolves to the byte length of
/// `a`, whatever follows.
pub proof fn lemma_offset_at_boundary(a: Seq<Seq<u8>>, x: Seq<Seq<u8>>)
    ensures
        cluster_offset(a + x, newline_count(a), tail_length(a)) == Some(
            a.flatten().len() as int,
        ),
    decreases a.len(),
{
    lemma_newline_count_nonneg(a);
    if a.len() == 0 {
        assert(a + x =~= x);
        assert(a.flatten().len() == 0) by {
            assert(a.flatten() =~= Seq::<u8>::empty());
        }
    } else {
        let g = a[0];
        let rest = a.skip(1);
        lemma_newline_count_nonneg(rest);
        assert((a + x).skip(1) =~= rest + x);
        assert((a + x)[0] == g);
        lemma_flatten_unfold(a);
        if newline_count(a) == 0 {
            // every cluster of `a` sits on its single line
            assert(!is_newline(g));
            assert(tail_length(a) == a.len());
            assert(newline_count(rest) == 0 && tail_length(rest) == rest.len());
            lemma_offset_at_boundary(rest, x);
        } else if is_newline(g) {
            assert(newline_count(a) == 1 + newline_count(rest));
            assert(tail_length(a) == tail_length(rest));
            lemma_offset_at_boundary(rest, x);
        } else {
            assert(newline_count(a) == newline_count(rest));
            assert(newline_count(rest) != 0);
            assert(tail_length(a) == tail_length(rest));
            lemma_offset_at_boundary(rest, x);
        }
    }
}

/// An ASCII byte within valid UTF-8 is a whole character: both sides of
/// it are character boundaries.
pub proof fn lemma_ascii_boundary(b: Seq<u8>, i: int)
    requires
        valid_utf8(b),
        0 <= i < b.len(),
        b[i] < 0x80,
    ensures
        vstd::utf8::is_char_boundary(b, i),
        vstd::utf8::is_char_boundary(b, i + 1),
{
    vstd::utf8::is_char_boundary_iff_not_is_continuation_byte(b, i);
    assert(vstd::utf8::is_char_boundary(b, i));
    if i + 1 == b.len() {
        vstd::utf8::is_char_boundary_start_end_of_seq(b);
    } else {
        vstd::utf8::valid_utf8_split(b, i);
        let suffix = b.subrange(i, b.len() as int);
        assert(valid_utf8(suffix));
        assert(suffix[0] == b[i]);
        assert(vstd::utf8::is_leading_byte_width_1(suffix[0]));
        assert(vstd::utf8::valid_first_scalar(suffix));
        assert(vstd::utf8::length_of_first_scalar(suffix) == 1);
        let rest = vstd::utf8::pop_first_scalar(suffix);
        assert(valid_utf8(rest));
        assert(rest[0] == b[i + 1]);
        assert(vstd::utf8::valid_first_scalar(rest));
        assert(!vstd::utf8::is_continuation_byte(rest[0]));
        vstd::utf8::is_char_boundary_iff_not_is_continuation_byte(b, i + 1);
    }
}

/// A character boundary stays one when the bytes before another boundary
/// are dropped.
pub proof fn lemma_boundary_shift(b: Seq<u8>, x: int, y: int)
    requires
        valid_utf8(b),
        vstd::utf8::is_char_boundary(b, x),
        vstd::utf8::is_char_boundary(b, y),
        0 <= x <= y <= b.len(),
    ensures
        vstd::utf8::is_char_boundary(b.subrange(x, b.len() as int), y - x),
    decreases x,
{
    if x == 0 {
        assert(b.subrange(0, b.len() as int) =~= b);
    } else {
        let w = vstd::utf8::length_of_first_scalar(b);
        assert(vstd::utf8::valid_first_scalar(b));
        assert(1 <= w <= 4);
        assert(x >= w) by {
            if x < w {
                reveal_with_fuel(vstd::utf8::is_char_boundary, 2);
                assert(!vstd::utf8::is_char_boundary(b, x));
            }
        }
        assert(y >= w);
        let rest = vstd::utf8::pop_first_scalar(b);
        lemma_boundary_shift(rest, x - w, y - w);
        assert(b.subrange(x, b.len() as int) =~= rest.subrange(x - w, rest.len() as int));
    }
}

/// The bytes between two character boundaries of valid UTF-8 are valid
/// UTF-8.
pub proof fn lemma_valid_between(b: Seq<u8>, x: int, y: int)
    requires
        valid_utf8(b),
        vstd::utf8::is_char_boundary(b, x),
        vstd::utf8::is_char_boundary(b, y),
        0 <= x <= y <= b.len(),
    ensures
        valid_utf8(b.subrange(x, y)),
{
    vstd::utf8::valid_utf8_split(b, x);
    let suffix = b.subrange(x, b.len() as int);
    lemma_boundary_shift(b, x, y);
    vstd::utf8::valid_utf8_split(suffix, y - x);
    assert(suffix.subrange(0, y - x) =~= b.subrange(x, y));
}

/// A non-empty cluster sequence flattens to its head followed by the
/// flattening of its tail.
pub proof fn lemma_flatten_unfold(gs: Seq<Seq<u8>>)
    requires
        gs.len() > 0,
    ensures
        gs.flatten() == gs[0] + gs.skip(1).flatten(),
{
    assert(gs.drop_first() =~= gs.skip(1));
    assert(gs.flatten() == gs.first() + gs.drop_first().flatten());
}

/// Taking one more cluster extends the flattened prefix by that cluster.
pub proof fn lemma_take_flatten_snoc(gs: Seq<Seq<u8>>, i: int)
    requires
        0 <= i < gs.len(),
    ensures
        gs.take(i + 1).flatten() == gs.take(i).flatten() + gs[i],
{
    assert(gs.take(i + 1) =~= gs.take(i).push(gs[i]));
    gs.take(i).lemma_flatten_push(gs[i]);
}

/// A resolved byte offset lies within the flattened cluster sequence.
pub proof fn lemma_cluster_offset_bounds(gs: Seq<Seq<u8>>, line: int, off: int)
    requires
        cluster_offset(gs, line, off) is Some,
    ensures
        0 <= cluster_offset(gs, line, off).unwrap() <= gs.flatten().len(),
    decreases gs.len(),
{
    if line == 0 && off == 0 {
    } else {
        lemma_flatten_unfold(gs);
        if is_newline(gs[0]) {
            lemma_cluster_offset_bounds(gs.skip(1), line - 1, off);
        } else if line == 0 {
            lemma_cluster_offset_bounds(gs.skip(1), 0, off - 1);
        } else {
            lemma_cluster_offset_bounds(gs.skip(1), line, off);
        }
    }
}

/// Position order implies byte-offset order: of two resolvable positions,
/// the lexicographically earlier one resolves no later in the bytes.
pub proof fn lemma_cluster_offset_mono(gs: Seq<Seq<u8>>, l1: int, o1: int, l2: int, o2: int)
    requires
        l1 < l2 || (l1 == l2 && o1 <= o2),
        cluster_offset(gs, l1, o1) is Some,
        cluster_offset(gs, l2, o2) is Some,
    ensures
        cluster_offset(gs, l1, o1).unwrap() <= cluster_offset(gs, l2, o2).unwrap(),
    decreases gs.len(),
{
    if l1 == 0 && o1 == 0 {
        lemma_cluster_offset_bounds(gs, l2, o2);
        lemma_cluster_offset_nonneg(gs, l2, o2);
    } else if is_newline(gs[0]) {
        lemma_cluster_offset_mono(gs.skip(1), l1 - 1, o1, l2 - 1, o2);
    } else if l1 == 0 {
        if l2 == 0 {
            lemma_cluster_offset_mono(gs.skip(1), 0, o1 - 1, 0, o2 - 1);
        } else {
            lemma_cluster_offset_mono(gs.skip(1), 0, o1 - 1, l2, o2);
        }
    } else {
        lemma_cluster_offset_mono(gs.skip(1), l1, o1, l2, o2);
    }
}

/// A resolved byte offset is non-negative.
proof fn lemma_cluster_offset_nonneg(gs: Seq<Seq<u8>>, line: int, off: int)
    requires
        cluster_offset(gs, line, off) is Some,
    ensures
        cluster_offset(gs, line, off).unwrap() >= 0,
    decreases gs.len(),
{
    if line == 0 && off == 0 {
    } else if is_newline(gs[0]) {
        lemma_cluster_offset_nonneg(gs.skip(1), line - 1, off);
    } else if line == 0 {
        lemma_cluster_offset_nonneg(gs.skip(1), 0, off - 1);
    } else {
        lemma_cluster_offset_nonneg(gs.skip(1), line, off);
    }
}

/// Flattened prefixes grow with the number of clusters taken.
pub proof fn lemma_take_flatten_le(gs: Seq<Seq<u8>>, i: int, j: int)
    requires
        0 <= i <= j <= gs.len(),
    ensures
        gs.take(i).flatten().len() <= gs.take(j).flatten().len(),
    decreases j - i,
{
    if i < j {
        lemma_take_flatten_snoc(gs, j - 1);
        lemma_take_flatten_le(gs, i, j - 1);
    }
}

/// With no empty clusters, strictly more clusters flatten to strictly more
/// bytes.
pub proof fn lemma_take_flatten_lt(gs: Seq<Seq<u8>>, i: int, j: int)
    requires
        0 <= i < j <= gs.len(),
        forall|k: int| 0 <= k < gs.len() ==> (#[trigger] gs[k]).len() > 0,
    ensures
        gs.take(i).flatten().len() < gs.take(j).flatten().len(),
    decreases j - i,
{
    lemma_take_flatten_snoc(gs, j - 1);
    if i < j - 1 {
        lemma_take_flatten_lt(gs, i, j - 1);
    }
}

/// A concatenation of valid UTF-8 cluster byte runs is valid UTF-8.
pub proof fn lemma_flatten_all_valid(gs: Seq<Seq<u8>>)
    requires
        forall|k: int| 0 <= k < gs.len() ==> valid_utf8(#[trigger] gs[k]),
    ensures
        valid_utf8(gs.flatten()),
    decreases gs.len(),
{
    if gs.len() == 0 {
        assert(gs.flatten() =~= Seq::<u8>::empty());
        assert(valid_utf8(gs.flatten()));
    } else {
        lemma_flatten_unfold(gs);
        lemma_flatten_all_valid(gs.skip(1));
        vstd::utf8::valid_utf8_concat(gs[0], gs.skip(1).flatten());
    }
}

/// The bytes between the flattened lengths of two prefixes are exactly the
/// flattening of the clusters in between.
pub proof fn lemma_flatten_slice(gs: Seq<Seq<u8>>, i: int, j: int)
    requires
        0 <= i <= j <= gs.len(),
    ensures
        gs.take(i).flatten().len() + gs.subrange(i, j).flatten().len() == gs.take(
            j,
        ).flatten().len(),
        gs.take(j).flatten().len() <= gs.flatten().len(),
        gs.flatten().subrange(
            gs.take(i).flatten().len() as int,
            gs.take(j).flatten().len() as int,
        ) == gs.subrange(i, j).flatten(),
{
    assert(gs.take(j) =~= gs.take(i) + gs.subrange(i, j));
    lemma_flatten_concat(gs.take(i), gs.subrange(i, j));
    assert(gs =~= gs.take(j) + gs.skip(j));
    lemma_flatten_concat(gs.take(j), gs.skip(j));
    assert(gs.flatten().subrange(
        gs.take(i).flatten().len() as int,
        gs.take(j).flatten().len() as int,
    ) =~= gs.subrange(i, j).flatten());
}

/// A line that exists has at most as many clusters as the whole sequence.
pub proof fn lemma_line_length_bound(gs: Seq<Seq<u8>>, line: int)
    requires
        line_length(gs, line) is Some,
    ensures
        0 <= line_length(gs, line).unwrap() <= gs.len(),
    decreases gs.len(),
{
    if gs.len() == 0 || (line == 0 && is_newline(gs[0])) {
    } else if is_newline(gs[0]) {
        lemma_line_length_bound(gs.skip(1), line - 1);
    } else if line == 0 {
        lemma_line_length_bound(gs.skip(1), 0);
    } else {
        lemma_line_length_bound(gs.skip(1), line);
    }
}

/// Computes the number of grapheme clusters on the given line, or `None`
/// when the line does not exist.
pub(crate) fn walk_line_length(gs: &Vec<Vec<u8>>, line: usize) -> (r: Option<usize>)
    ensures
        r is Some <==> line_length(views(gs@), line as int) is Some,
        r matches Some(l) ==> line_length(views(gs@), line as int) == Some(l as int),
{
    let ghost gsv = views(gs@);
    let mut i: usize = 0;
    let mut rl: usize = line;
    proof {
        assert(gsv.skip(0) =~= gsv);
    }
    loop
        invariant
            0 <= i <= gs@.len(),
            gsv == views(gs@),
            line_length(gsv, line as int) == line_length(gsv.skip(i as int), rl as int),
        decreases gs@.len() - i,
    {
        if rl == 0 {
            let count = count_line(gs, i);
            proof {
                lemma_line_length_bound(gsv.skip(i as int), 0);
            }
            return Some(count);
        }
        if i == gs.len() {
            assert(gsv.skip(i as int).len() == 0);
            return None;
        }
        let g = &gs[i];
        let ghost rest = gsv.skip(i as int);
        proof {
            assert(rest[0] == gsv[i as int]);
            assert(rest.skip(1) =~= gsv.skip(i as int + 1));
        }
        let newline = g.len() == 1 && g[0] == 10u8;
        proof {
            if newline {
                assert(g@ =~= seq![10u8]);
            }
            assert(is_newline(rest[0]) == newline);
        }
        if newline {
            rl = rl - 1;
        }
        i = i + 1;
    }
}

/// Counts the clusters from index `start` up to the next `\n` cluster or
/// the end of the sequence: the length of the line beginning there.
fn count_line(gs: &Vec<Vec<u8>>, start: usize) -> (r: usize)
    requires
        start <= gs@.len(),
    ensures
        Some(r as int) == line_length(views(gs@).skip(start as int), 0),
{
    let ghost gsv = views(gs@);
    let mut i: usize = start;
    let mut count: usize = 0;
    loop
        invariant
            start <= i <= gs@.len(),
            gsv == views(gs@),
            count <= i,
            line_length(gsv.skip(start as int), 0) == match line_length(gsv.skip(i as int), 0) {
                Some(n) => Some(n + count),
                None => None::<int>,
            },
        decreases gs@.len() - i,
    {
        if i == gs.len() {
            assert(gsv.skip(i as int).len() == 0);
            return count;
        }
        let g = &gs[i];
        let ghost rest = gsv.skip(i as int);
        proof {
            assert(rest[0] == gsv[i as int]);
            assert(rest.skip(1) =~= gsv.skip(i as int + 1));
        }
        let newline = g.len() == 1 && g[0] == 10u8;
        proof {
            if newline {
                assert(g@ =~= seq![10u8]);
            }
            assert(is_newline(rest[0]) == newline);
        }
        if newline {
            return count;
        }
        count = count + 1;
        i = i + 1;
    }
}

/// Computes the index of the last line of the cluster sequence and its
/// length in clusters.
pub(crate) fn walk_last_line(gs: &Vec<Vec<u8>>) -> (r: (usize, usize))
    ensures
        r.0 == newline_count(views(gs@)),
        r.1 == tail_length(views(gs@)),
{
    let ghost gsv = views(gs@);
    let mut i: usize = 0;
    let mut nl: usize = 0;
    let mut run: usize = 0;
    proof {
        assert(gsv.skip(0) =~= gsv);
        assert(tail_length(gsv) == if gsv.len() == 0 {
            0int
        } else if newline_count(gsv) == 0 {
            gsv.len() as int
        } else {
            tail_length(gsv.skip(1))
        });
        assert(newline_count(gsv.skip(0)) == newline_count(gsv));
        assert(tail_length(gsv.skip(0)) == tail_length(gsv));
        if newline_count(gsv) == 0 {
            assert(tail_length(gsv) == gsv.len());
        }
    }
    loop
        invariant
            0 <= i <= gs@.len(),
            gsv == views(gs@),
            nl <= i,
            run <= i,
            newline_count(gsv) == nl + newline_count(gsv.skip(i as int)),
            tail_length(gsv) == if newline_count(gsv.skip(i as int)) == 0 {
                run + (gsv.len() - i)
            } else {
                tail_length(gsv.skip(i as int))
            },
        decreases gs@.len() - i,
    {
        if i == gs.len() {
            assert(gsv.skip(i as int).len() == 0);
            return (nl, run);
        }
        let g = &gs[i];
        let ghost rest = gsv.skip(i as int);
        proof {
            assert(rest[0] == gsv[i as int]);
            assert(rest.skip(1) =~= gsv.skip(i as int + 1));
        }
        let newline = g.len() == 1 && g[0] == 10u8;
        proof {
            if newline {
                assert(g@ =~= seq![10u8]);
            }
            assert(is_newline(rest[0]) == newline);
            lemma_newline_count_nonneg(rest);
            lemma_newline_count_nonneg(rest.skip(1));
            assert(newline_count(rest) == (if is_newline(rest[0]) {
                1int
            } else {
                0int
            }) + newline_count(rest.skip(1)));
            assert(tail_length(rest) == if rest.len() == 0 {
                0int
            } else if newline_count(rest) == 0 {
                rest.len() as int
            } else {
                tail_length(rest.skip(1))
            });
            assert(tail_length(rest.skip(1)) == if rest.skip(1).len() == 0 {
                0int
            } else if newline_count(rest.skip(1)) == 0 {
                rest.skip(1).len() as int
            } else {
                tail_length(rest.skip(1).skip(1))
            });
        }
        if newline {
            nl = nl + 1;
            run = 0;
        } else {
            run = run + 1;
        }
        i = i + 1;
    }
}

/// Both sides of a flattened cluster sequence split at a cluster boundary
/// are valid UTF-8 when every cluster is.
pub proof fn lemma_flatten_take_valid(gs: Seq<Seq<u8>>, i: int)
    requires
        0 <= i <= gs.len(),
        forall|k: int| 0 <= k < gs.len() ==> valid_utf8(#[trigger] gs[k]),
    ensures
        valid_utf8(gs.take(i).flatten()),
        valid_utf8(gs.skip(i).flatten()),
{
    lemma_flatten_all_valid(gs.take(i));
    lemma_flatten_all_valid(gs.skip(i));
}

/// A walk that has not consumed more bytes than the first part of a
/// concatenation is still within the first part.
pub proof fn lemma_prefix_within(b: Seq<Seq<u8>>, a: Seq<Seq<u8>>, i: int)
    requires
        0 <= i <= b.len() + a.len(),
        forall|k: int| 0 <= k < a.len() ==> (#[trigger] a[k]).len() > 0,
        (b + a).take(i).flatten().len() <= b.flatten().len(),
    ensures
        i <= b.len(),
        (b + a).take(i) == b.take(i),
        (b + a).take(i).flatten().len() == b.take(i).flatten().len(),
{
    if i > b.len() {
        assert((b + a).take(i) =~= b + a.take(i - b.len()));
        lemma_flatten_concat(b, a.take(i - b.len()));
        lemma_take_flatten_lt(a, 0, i - b.len());
        assert(a.take(0).flatten() =~= Seq::<u8>::empty());
        assert(false);
    }
    assert((b + a).take(i) =~= b.take(i));
}

/// A walk that has consumed at least the bytes of the first part of a
/// concatenation has passed wholly through it.
pub proof fn lemma_suffix_within(b: Seq<Seq<u8>>, a: Seq<Seq<u8>>, i: int)
    requires
        0 <= i <= b.len() + a.len(),
        forall|k: int| 0 <= k < b.len() ==> (#[trigger] b[k]).len() > 0,
        (b + a).take(i).flatten().len() >= b.flatten().len(),
    ensures
        i >= b.len(),
        (b + a).take(i) == b + a.take(i - b.len()),
        (b + a).take(i).flatten().len() == b.flatten().len() + a.take(i - b.len()).flatten().len(),
{
    if i < b.len() {
        assert((b + a).take(i) =~= b.take(i));
        lemma_take_flatten_lt(b, i, b.len() as int);
        assert(b.take(b.len() as int) =~= b);
        assert(false);
    }
    assert((b + a).take(i) =~= b + a.take(i - b.len()));
    lemma_flatten_concat(b, a.take(i - b.len()));
}

/// Resolves the position `(line, offset)` within a vector of grapheme
/// clusters, returning the byte offset of the boundary it addresses along
/// with the number of clusters that precede it.
pub(crate) fn walk_clusters(gs: &Vec<Vec<u8>>, line: usize, offset: usize) -> (r: Option<
    (usize, Ghost<int>),
>)
    requires
        views(gs@).flatten().len() <= usize::MAX,
    ensures
        match r {
            Some(pair) => {
                &&& cluster_offset(views(gs@), line as int, offset as int) == Some(pair.0 as int)
                &&& 0 <= pair.1@ <= gs@.len()
                &&& pair.0 as int == views(gs@).take(pair.1@).flatten().len()
            },
            None => cluster_offset(views(gs@), line as int, offset as int) is None,
        },
{
    let ghost gsv = views(gs@);
    let mut i: usize = 0;
    let mut byte_off: usize = 0;
    let mut rl: usize = line;
    let mut ro: usize = offset;

    proof {
        assert(gsv.skip(0) =~= gsv);
        assert(gsv.take(0).flatten() =~= Seq::<u8>::empty());
    }
    loop
        invariant
            0 <= i <= gs@.len(),
            gsv == views(gs@),
            gsv.flatten().len() <= usize::MAX,
            byte_off as int == gsv.take(i as int).flatten().len(),
            cluster_offset(gsv, line as int, offset as int) == opt_shift(
                cluster_offset(gsv.skip(i as int), rl as int, ro as int),
                byte_off as int,
            ),
        decreases gs@.len() - i,
    {
        if rl == 0 && ro == 0 {
            assert(cluster_offset(gsv.skip(i as int), 0, 0) == Some(0int));
            return Some((byte_off, Ghost(i as int)));
        }
        if i == gs.len() {
            assert(gsv.skip(i as int).len() == 0);
            assert(cluster_offset(gsv.skip(i as int), rl as int, ro as int) is None);
            return None;
        }
        let g = &gs[i];
        let ghost rest = gsv.skip(i as int);
        let ghost orl = rl as int;
        let ghost oro = ro as int;
        proof {
            assert(rest[0] == gsv[i as int]);
            assert(rest.skip(1) =~= gsv.skip(i as int + 1));
            lemma_take_flatten_snoc(gsv, i as int);
            lemma_flatten_slice(gsv, 0, i as int + 1);
            assert(gsv.take(gsv.len() as int) =~= gsv);
            lemma_take_flatten_le(gsv, i as int + 1, gsv.len() as int);
        }
        let newline = g.len() == 1 && g[0] == 10u8;
        proof {
            if newline {
                assert(g@ =~= seq![10u8]);
            }
            assert(is_newline(rest[0]) == newline);
        }
        if newline {
            if rl == 0 {
                assert(cluster_offset(rest, 0, oro) is None);
                return None;
            }
            rl = rl - 1;
        } else {
            if rl == 0 {
                ro = ro - 1;
            }
        }
        proof {
            if newline {
                assert(cluster_offset(rest, orl, oro) == opt_shift(
                    cluster_offset(rest.skip(1), orl - 1, oro),
                    rest[0].len() as int,
                ));
            } else if orl == 0 {
                assert(cluster_offset(rest, 0, oro) == opt_shift(
                    cluster_offset(rest.skip(1), 0, oro - 1),
                    rest[0].len() as int,
                ));
            } else {
                assert(cluster_offset(rest, orl, oro) == opt_shift(
                    cluster_offset(rest.skip(1), orl, oro),
                    rest[0].len() as int,
                ));
            }
        }
        byte_off = byte_off + g.len();
        i = i + 1;
    }
}

} // verus!
