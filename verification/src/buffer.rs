//! A feature-rich wrapper around an underlying gap buffer.

use vstd::prelude::*;
use vstd::string::StrSliceExecFns;
use vstd::utf8::{decode_utf8, encode_utf8, valid_utf8};
use crate::cursor::Cursor;
use crate::gap_buffer::GapBuffer;
use crate::history::History;
use crate::operations::{
    op_rev_rel, op_run_rel, op_view, replaced_content, Delete, Insert, Operation, OperationGroup,
    OpView, Replace,
};
use crate::position::{pos_le, pos_lt, Position};
use crate::range::Range;
use crate::text::{byte_newlines, count_newline_bytes};

verus! {

broadcast use vstd::utf8::encode_utf8_valid_utf8, vstd::utf8::encode_utf8_decode_utf8,
    vstd::utf8::decode_utf8_encode_utf8;

/// An in-memory text buffer with undo/redo history.
///
/// The buffer type wraps a gap buffer, providing a bounds-checked movable
/// cursor, reversible operations with history and grouping, search, and
/// simple file-name bookkeeping. When managed through a workspace, its
/// `id` field is populated with a unique value within the workspace, and
/// a syntax definition is assigned for tokenization.
///
/// The buffer holds no change-notification hook: a stored function value
/// cannot stand in verified code, so callers that want one wrap the
/// buffer and fire the hook themselves after each mutating call, using
/// the positions the mutating methods' contracts pin down.
pub struct Buffer {
    pub id: Option<usize>,
    pub gap: GapBuffer,
    pub path: Option<String>,
    pub cursor: Cursor,
    pub history: History,
    pub operation_group: Option<OperationGroup>,
    pub syntax_definition: Option<syntect::parsing::SyntaxReference>,
}

/// An open operation group, when present, holds edit primitives only.
pub open spec fn group_flat(og: Option<OperationGroup>) -> bool {
    match og {
        Some(g) => g.flat(),
        None => true,
    }
}

/// The recording of a freshly run operation with view `v`: it goes to the
/// open operation group when one is open, and to the history otherwise.
/// Everything else about the buffer stays as it is.
pub open spec fn recorded_op(b1: Buffer, b2: Buffer, v: OpView) -> bool {
    &&& b2.id == b1.id
    &&& b2.path == b1.path
    &&& b2.syntax_definition == b1.syntax_definition
    &&& b2.gap == b1.gap
    &&& b2.cursor == b1.cursor
    &&& match b1.operation_group {
        Some(g) => {
            &&& b2.operation_group matches Some(g2) && g2.views() == g.views().push(v)
            &&& b2.history == b1.history
        },
        None => {
            &&& b2.operation_group is None
            &&& b2.history.prev_views() == b1.history.prev_views().push(v)
            &&& b2.history.spec_next() == Seq::<Operation>::empty()
            &&& b2.history.spec_marked() == match b1.history.spec_marked() {
                Some(position) => if position > b1.history.spec_previous().len() {
                    None::<usize>
                } else {
                    Some(position)
                },
                None => None::<usize>,
            }
        },
    }
}

/// Everything but the history is untouched.
pub open spec fn same_but_history(b1: Buffer, b2: Buffer) -> bool {
    &&& b2.gap == b1.gap
    &&& b2.cursor == b1.cursor
    &&& b2.id == b1.id
    &&& b2.path == b1.path
    &&& b2.operation_group == b1.operation_group
    &&& b2.syntax_definition == b1.syntax_definition
}

/// The buffer `b`, with its open operation group replaced.
pub open spec fn with_group(b: Buffer, og: Option<OperationGroup>) -> Buffer {
    Buffer { operation_group: og, ..b }
}

/// An undo that consulted the history: the newest run operation, if any,
/// was moved to the redo log and reversed.
pub open spec fn undone_from_history(b1: Buffer, b2: Buffer) -> bool {
    if b1.history.spec_previous().len() == 0 {
        same_but_history(b1, b2) && b2.history.spec_previous() == b1.history.spec_previous()
            && b2.history.spec_next() == b1.history.spec_next()
            && b2.history.spec_marked() == b1.history.spec_marked()
    } else {
        let op = b1.history.spec_previous().last();
        exists|bm: Buffer|
            {
                &&& #[trigger] op_rev_rel(op_view(op), bm, b2)
                &&& bm.history.spec_previous() == b1.history.spec_previous().drop_last()
                &&& bm.history.next_views() == b1.history.next_views().push(op_view(op))
                &&& bm.history.spec_marked() == b1.history.spec_marked()
                &&& bm.gap == b1.gap
                &&& bm.cursor == b1.cursor
                &&& bm.id == b1.id
                &&& bm.path == b1.path
                &&& bm.operation_group == b1.operation_group
                &&& bm.syntax_definition == b1.syntax_definition
            }
    }
}

/// The outcome of an undo. An open, non-empty operation group is reversed
/// and discarded without reaching the history; an open empty group is
/// discarded and the history is consulted instead.
pub open spec fn undone(b1: Buffer, b2: Buffer) -> bool {
    match b1.operation_group {
        Some(g) => if g.spec_operations().len() > 0 {
            op_rev_rel(
                OpView::Group { operations: g.views() },
                with_group(b1, None),
                b2,
            )
        } else {
            undone_from_history(with_group(b1, None), b2)
        },
        None => undone_from_history(b1, b2),
    }
}

/// The outcome of a redo: the newest reversed operation, if any, was
/// moved back to the run log and run again.
pub open spec fn redone(b1: Buffer, b2: Buffer) -> bool {
    if b1.history.spec_next().len() == 0 {
        same_but_history(b1, b2) && b2.history.spec_previous() == b1.history.spec_previous()
            && b2.history.spec_next() == b1.history.spec_next()
            && b2.history.spec_marked() == b1.history.spec_marked()
    } else {
        let op = b1.history.spec_next().last();
        exists|bm: Buffer, op2: OpView|
            {
                &&& #[trigger] op_run_rel(op_view(op), op2, bm, b2)
                &&& bm.history.spec_next() == b1.history.spec_next().drop_last()
                &&& bm.history.prev_views() == b1.history.prev_views().push(op_view(op))
                &&& bm.history.spec_marked() == b1.history.spec_marked()
                &&& bm.gap == b1.gap
                &&& bm.cursor == b1.cursor
                &&& bm.id == b1.id
                &&& bm.path == b1.path
                &&& bm.operation_group == b1.operation_group
                &&& bm.syntax_definition == b1.syntax_definition
            }
    }
}

/// A line with a trailing carriage return has it removed, as part of a
/// line terminator.
pub open spec fn strip_cr(l: Seq<u8>) -> Seq<u8> {
    if l.len() > 0 && l.last() == 13u8 {
        l.drop_last()
    } else {
        l
    }
}

/// Splits the remaining bytes `b` into lines, with `cur` holding the
/// bytes of the line in progress. A `\n` ends a line (dropping a
/// preceding carriage return); a final line without a terminator is kept,
/// and a trailing terminator opens no empty final line.
pub open spec fn split_acc(b: Seq<u8>, cur: Seq<u8>) -> Seq<Seq<u8>>
    decreases b.len(),
{
    if b.len() == 0 {
        if cur.len() == 0 {
            Seq::empty()
        } else {
            seq![cur]
        }
    } else if b[0] == 10u8 {
        seq![strip_cr(cur)] + split_acc(b.skip(1), Seq::empty())
    } else {
        split_acc(b.skip(1), cur.push(b[0]))
    }
}

/// The lines of a byte sequence, as `search` sees them.
pub open spec fn split_lines(b: Seq<u8>) -> Seq<Seq<u8>> {
    split_acc(b, Seq::empty())
}

/// A search hit: `needle` occurs in line `l` of the content at byte
/// offset `o`, which is the start of a character.
pub open spec fn search_match(content: Seq<u8>, needle: Seq<u8>, l: int, o: int) -> bool {
    &&& 0 <= l < split_lines(content).len()
    &&& 0 <= o < split_lines(content)[l].len()
    &&& vstd::utf8::is_char_boundary(split_lines(content)[l], o)
    &&& o + needle.len() <= split_lines(content)[l].len()
    &&& split_lines(content)[l].subrange(o, o + needle.len()) == needle
}

/// The bytes of a path after its last separator.
pub open spec fn after_last_slash(p: Seq<u8>) -> Seq<u8>
    decreases p.len(),
{
    if p.len() == 0 {
        p
    } else if p.last() == 47u8 {
        Seq::empty()
    } else {
        after_last_slash(p.drop_last()).push(p.last())
    }
}

/// The file name a path names: the part after its last separator, when
/// that is neither empty nor a relative-directory component.
pub open spec fn file_name_spec(p: Seq<u8>) -> Option<Seq<u8>> {
    let tail = after_last_slash(p);
    if tail.len() == 0 || tail == seq![46u8] || tail == seq![46u8, 46u8] {
        None
    } else {
        Some(tail)
    }
}

/// The index of the last dot of a name, if any.
pub open spec fn last_dot(name: Seq<u8>) -> Option<int>
    decreases name.len(),
{
    if name.len() == 0 {
        None
    } else if name.last() == 46u8 {
        Some(name.len() - 1)
    } else {
        last_dot(name.drop_last())
    }
}

/// The extension of a path: the part of its file name after the last
/// dot, when the dot neither leads the name nor ends it.
pub open spec fn extension_spec(p: Seq<u8>) -> Option<Seq<u8>> {
    match file_name_spec(p) {
        Some(name) => match last_dot(name) {
            Some(k) => if k > 0 && k + 1 < name.len() {
                Some(name.skip(k + 1))
            } else {
                None
            },
            None => None,
        },
        None => None,
    }
}

/// Finds the byte index where the final path component starts: just
/// after the last separator.
fn tail_start(bytes: &Vec<u8>) -> (r: usize)
    ensures
        r <= bytes@.len(),
        after_last_slash(bytes@) == bytes@.subrange(r as int, bytes@.len() as int),
        r == 0 || bytes@[r - 1] == 47u8,
{
    let len = bytes.len();
    let mut start: usize = 0;
    let mut i: usize = 0;
    proof {
        assert(bytes@.take(0int) =~= Seq::<u8>::empty());
        assert(after_last_slash(bytes@.take(0int)) =~= bytes@.subrange(0int, 0int));
    }
    while i < len
        invariant
            0 <= start <= i <= len,
            len == bytes@.len(),
            after_last_slash(bytes@.take(i as int)) == bytes@.subrange(start as int, i as int),
            start == 0 || bytes@[start - 1] == 47u8,
        decreases len - i,
    {
        let b = bytes[i];
        proof {
            assert(bytes@.take(i as int + 1).drop_last() =~= bytes@.take(i as int));
            assert(bytes@.take(i as int + 1).last() == bytes@[i as int]);
        }
        if b == 47u8 {
            start = i + 1;
            proof {
                assert(after_last_slash(bytes@.take(i as int + 1)) =~= bytes@.subrange(
                    i as int + 1,
                    i as int + 1,
                ));
            }
        } else {
            proof {
                assert(after_last_slash(bytes@.take(i as int + 1)) =~= bytes@.subrange(
                    start as int,
                    i as int + 1,
                ));
            }
        }
        i = i + 1;
    }
    proof {
        assert(bytes@.take(len as int) =~= bytes@);
    }
    start
}

/// Returns the file name portion of a path string, per
/// `file_name_spec`.
fn file_name_of(p: &str) -> (r: Option<String>)
    ensures
        match file_name_spec(encode_utf8(p@)) {
            Some(name) => r matches Some(text) && text@ == decode_utf8(name),
            None => r is None,
        },
{
    let bytes = p.as_bytes_vec();
    let len = bytes.len();
    let start = tail_start(&bytes);
    let ghost tail = after_last_slash(bytes@);
    if start == len {
        proof {
            assert(tail.len() == 0);
        }
        return None;
    }
    if len - start == 1 && bytes[start] == 46u8 {
        proof {
            assert(tail =~= seq![46u8]);
        }
        return None;
    }
    if len - start == 2 && bytes[start] == 46u8 && bytes[start + 1] == 46u8 {
        proof {
            assert(tail =~= seq![46u8, 46u8]);
        }
        return None;
    }
    proof {
        assert(tail.len() > 0);
        if tail == seq![46u8] {
            assert(tail.len() == 1 && tail[0] == 46u8);
            assert(false);
        }
        if tail == seq![46u8, 46u8] {
            assert(tail.len() == 2 && tail[0] == 46u8 && tail[1] == 46u8);
            assert(false);
        }
        assert(valid_utf8(bytes@));
        if start > 0 {
            assert(bytes@[start - 1] == 47u8);
            crate::text::lemma_ascii_boundary(bytes@, start - 1);
        } else {
            vstd::utf8::is_char_boundary_start_end_of_seq(bytes@);
        }
        vstd::utf8::valid_utf8_split(bytes@, start as int);
    }
    let slice = vstd::slice::slice_subrange(bytes.as_slice(), start, len);
    Some(crate::text::bytes_to_string(slice))
}

/// Returns the extension of a path string, per `extension_spec`.
fn extension_of(p: &str) -> (r: Option<String>)
    ensures
        match extension_spec(encode_utf8(p@)) {
            Some(ext) => r matches Some(text) && text@ == decode_utf8(ext),
            None => r is None,
        },
{
    let bytes = p.as_bytes_vec();
    let len = bytes.len();
    let start = tail_start(&bytes);
    let ghost tail = after_last_slash(bytes@);
    if start == len {
        proof {
            assert(tail.len() == 0);
            assert(file_name_spec(encode_utf8(p@)) is None);
        }
        return None;
    }
    if len - start == 1 && bytes[start] == 46u8 {
        proof {
            assert(tail =~= seq![46u8]);
        }
        return None;
    }
    if len - start == 2 && bytes[start] == 46u8 && bytes[start + 1] == 46u8 {
        proof {
            assert(tail =~= seq![46u8, 46u8]);
        }
        return None;
    }
    proof {
        if tail == seq![46u8] {
            assert(tail.len() == 1 && tail[0] == 46u8);
            assert(false);
        }
        if tail == seq![46u8, 46u8] {
            assert(tail.len() == 2 && tail[0] == 46u8 && tail[1] == 46u8);
            assert(false);
        }
    }
    // Scan the file name for its last dot.
    let mut dot: Option<usize> = None;
    let mut i: usize = start;
    proof {
        assert(bytes@.subrange(start as int, start as int) =~= Seq::<u8>::empty());
        assert(last_dot(bytes@.subrange(start as int, start as int)) is None);
    }
    while i < len
        invariant
            start <= i <= len,
            len == bytes@.len(),
            bytes@ == encode_utf8(p@),
            valid_utf8(bytes@),
            tail == after_last_slash(encode_utf8(p@)),
            tail == bytes@.subrange(start as int, len as int),
            file_name_spec(encode_utf8(p@)) == Some(tail),
            match dot {
                Some(d) => start <= d < i && bytes@[d as int] == 46u8 && last_dot(
                    bytes@.subrange(start as int, i as int),
                ) == Some(d - start),
                None => last_dot(bytes@.subrange(start as int, i as int)) is None,
            },
        decreases len - i,
    {
        let b = bytes[i];
        proof {
            assert(bytes@.subrange(start as int, i as int + 1).drop_last() =~= bytes@.subrange(
                start as int,
                i as int,
            ));
            assert(bytes@.subrange(start as int, i as int + 1).last() == bytes@[i as int]);
        }
        if b == 46u8 {
            dot = Some(i);
        }
        i = i + 1;
    }
    match dot {
        Some(d) => {
            if d == start {
                return None;
            }
            if d + 1 == len {
                return None;
            }
            proof {
                crate::text::lemma_ascii_boundary(bytes@, d as int);
                vstd::utf8::valid_utf8_split(bytes@, d as int + 1);
                assert(tail.skip(d - start + 1) =~= bytes@.subrange(d as int + 1, len as int));
            }
            let slice = vstd::slice::slice_subrange(bytes.as_slice(), d + 1, len);
            Some(crate::text::bytes_to_string(slice))
        },
        None => None,
    }
}

/// Splits content bytes into the lines that `search` walks.
fn split_into_lines(bytes: &Vec<u8>) -> (r: Vec<Vec<u8>>)
    requires
        valid_utf8(bytes@),
    ensures
        crate::text::views(r@) == split_lines(bytes@),
        forall|t: int| 0 <= t < r@.len() ==> valid_utf8((#[trigger] r@[t])@),
{
    let mut out: Vec<Vec<u8>> = Vec::new();
    let mut cur: Vec<u8> = Vec::new();
    let ghost mut ls: int = 0;
    let mut i: usize = 0;
    let len = bytes.len();
    proof {
        assert(bytes@.skip(0) =~= bytes@);
        assert(cur@ =~= bytes@.subrange(0, 0));
        assert(crate::text::views(out@) =~= Seq::<Seq<u8>>::empty());
        assert(split_lines(bytes@) =~= Seq::<Seq<u8>>::empty() + split_acc(
            bytes@.skip(0),
            Seq::<u8>::empty(),
        ));
    }
    while i < len
        invariant
            0 <= ls <= i <= len,
            len == bytes@.len(),
            valid_utf8(bytes@),
            cur@ == bytes@.subrange(ls, i as int),
            ls == 0 || bytes@[ls - 1] == 10u8,
            split_lines(bytes@) == crate::text::views(out@) + split_acc(
                bytes@.skip(i as int),
                cur@,
            ),
            forall|t: int| 0 <= t < out@.len() ==> valid_utf8((#[trigger] out@[t])@),
        decreases len - i,
    {
        let b = bytes[i];
        let ghost rest = bytes@.skip(i as int);
        proof {
            assert(rest[0] == bytes@[i as int]);
            assert(rest.skip(1) =~= bytes@.skip(i as int + 1));
        }
        if b == 10u8 {
            proof {
                if ls > 0 {
                    crate::text::lemma_ascii_boundary(bytes@, ls - 1);
                } else {
                    vstd::utf8::is_char_boundary_start_end_of_seq(bytes@);
                }
                crate::text::lemma_ascii_boundary(bytes@, i as int);
                crate::text::lemma_valid_between(bytes@, ls, i as int);
            }
            let has_cr = cur.len() > 0 && cur[cur.len() - 1] == 13u8;
            if has_cr {
                let kept = cur.len() - 1;
                cur.truncate(kept);
                proof {
                    assert(cur@ =~= bytes@.subrange(ls, i as int).drop_last());
                    assert(cur@ =~= strip_cr(bytes@.subrange(ls, i as int)));
                    crate::text::lemma_ascii_boundary(
                        bytes@.subrange(ls, i as int),
                        i - ls - 1,
                    );
                    vstd::utf8::valid_utf8_split(bytes@.subrange(ls, i as int), i - ls - 1);
                    assert(bytes@.subrange(ls, i as int).subrange(0, i - ls - 1)
                        =~= cur@);
                }
            } else {
                proof {
                    assert(cur@ =~= strip_cr(bytes@.subrange(ls, i as int)));
                }
            }
            let ghost out_old = out@;
            let ghost cur_old = bytes@.subrange(ls, i as int);
            let finished = cur;
            cur = Vec::new();
            out.push(finished);
            proof {
                ls = i as int + 1;
                assert(cur@ =~= bytes@.subrange(ls, i as int + 1));
                assert(finished@ == strip_cr(cur_old));
                assert(split_acc(rest, cur_old) == seq![strip_cr(cur_old)] + split_acc(
                    rest.skip(1),
                    Seq::<u8>::empty(),
                ));
                assert(crate::text::views(out@) =~= crate::text::views(out_old).push(
                    finished@,
                ));
                assert(crate::text::views(out@) + split_acc(bytes@.skip(i as int + 1), cur@)
                    =~= crate::text::views(out_old) + split_acc(rest, cur_old));
            }
        } else {
            cur.push(b);
            proof {
                assert(cur@ =~= bytes@.subrange(ls, i as int + 1));
                assert(split_acc(rest, bytes@.subrange(ls, i as int)) == split_acc(
                    rest.skip(1),
                    bytes@.subrange(ls, i as int).push(bytes@[i as int]),
                ));
                assert(bytes@.subrange(ls, i as int).push(bytes@[i as int]) =~= cur@);
            }
        }
        i = i + 1;
    }
    proof {
        assert(bytes@.skip(len as int).len() == 0);
        if cur@.len() > 0 {
            if ls > 0 {
                crate::text::lemma_ascii_boundary(bytes@, ls - 1);
            } else {
                vstd::utf8::is_char_boundary_start_end_of_seq(bytes@);
            }
            vstd::utf8::is_char_boundary_start_end_of_seq(bytes@);
            crate::text::lemma_valid_between(bytes@, ls, len as int);
        }
    }
    if cur.len() > 0 {
        let finished = cur;
        out.push(finished);
        proof {
            assert(crate::text::views(out@) =~= crate::text::views(out@.drop_last()).push(
                finished@,
            ));
            assert(split_lines(bytes@) =~= crate::text::views(out@));
        }
    } else {
        proof {
            assert(split_lines(bytes@) =~= crate::text::views(out@));
        }
    }
    out
}

/// Whether the bytes of `n` occur in `l` at offset `j`.
fn bytes_match(l: &Vec<u8>, j: usize, n: &Vec<u8>) -> (r: bool)
    requires
        j <= l@.len(),
    ensures
        r == (j + n@.len() <= l@.len() && l@.subrange(j as int, j + n@.len()) == n@),
{
    let nl = n.len();
    let llen = l.len();
    if nl > llen - j {
        return false;
    }
    let mut k: usize = 0;
    while k < nl
        invariant
            0 <= k <= nl,
            nl == n@.len(),
            llen == l@.len(),
            j + nl <= llen,
            forall|t: int| 0 <= t < k ==> l@[j + t] == n@[t],
        decreases nl - k,
    {
        if l[j + k] != n[k] {
            proof {
                assert(l@.subrange(j as int, j + n@.len())[k as int] == l@[j + k]);
            }
            return false;
        }
        k = k + 1;
    }
    proof {
        assert(l@.subrange(j as int, j + n@.len()) =~= n@);
    }
    true
}

impl Buffer {
    /// The buffer's gap buffer is well formed, and every recorded
    /// operation is flat.
    pub open spec fn wf(self) -> bool {
        &&& self.gap.wf()
        &&& self.history.flat()
        &&& group_flat(self.operation_group)
    }

    /// Creates a new empty buffer. The buffer's cursor is set to the
    /// beginning of the buffer. A buffer without a path counts as
    /// modified from the start.
    pub fn new() -> (r: Buffer)
        ensures
            r.wf(),
            r.gap.content() == Seq::<u8>::empty(),
            r.cursor.position == (Position { line: 0, offset: 0 }),
            r.history.spec_previous().len() == 0,
            r.history.spec_next().len() == 0,
            r.history.spec_marked() is None,
            r.id is None,
            r.path is None,
            r.operation_group is None,
            r.syntax_definition is None,
    {
        let gap = GapBuffer::new(String::new());
        proof {
            assert(encode_utf8(Seq::<char>::empty()) =~= Seq::<u8>::empty());
        }
        Buffer {
            id: None,
            gap,
            path: None,
            cursor: Cursor::new(Position { line: 0, offset: 0 }),
            history: History::new(),
            operation_group: None,
            syntax_definition: None,
        }
    }

    /// Creates a buffer holding the given content, recording that it is
    /// in sync with its on-disk counterpart at the given path. The cursor
    /// is set to the beginning of the buffer.
    pub fn from_content(content: String, path: Option<String>) -> (r: Buffer)
        ensures
            r.wf(),
            r.gap.content() == encode_utf8(content@),
            r.cursor.position == (Position { line: 0, offset: 0 }),
            r.history.spec_previous().len() == 0,
            r.history.spec_next().len() == 0,
            r.history.spec_marked() == Some(0usize),
            r.id is None,
            r.path == path,
            r.operation_group is None,
            r.syntax_definition is None,
    {
        let gap = GapBuffer::new(content);
        let mut history = History::new();
        // We mark the history at points where the buffer
        // is in sync with its file equivalent.
        history.mark();
        Buffer {
            id: None,
            gap,
            path,
            cursor: Cursor::new(Position { line: 0, offset: 0 }),
            history,
            operation_group: None,
            syntax_definition: None,
        }
    }

    /// Returns the contents of the buffer as a string.
    pub fn data(&self) -> (r: String)
        requires
            self.wf(),
        ensures
            r@ == decode_utf8(self.gap.content()),
            encode_utf8(r@) == self.gap.content(),
    {
        self.gap.to_string()
    }

    /// Stores a freshly run operation: in the open operation group when
    /// one is open, in the history otherwise.
    fn record(&mut self, operation: Operation)
        requires
            old(self).wf(),
            crate::operations::is_primitive(operation),
            operation.flat(),
        ensures
            final(self).wf(),
            recorded_op(*old(self), *final(self), op_view(operation)),
    {
        let ghost pre = *self;
        match &mut self.operation_group {
            Some(group) => {
                group.add(operation);
                proof {
                    let g = pre.operation_group.unwrap();
                    assert(self.operation_group.unwrap().views() =~= g.views().push(
                        op_view(operation),
                    ));
                }
            },
            None => {
                self.history.add(operation);
                proof {
                    assert(self.history.prev_views() =~= pre.history.prev_views().push(
                        op_view(operation),
                    ));
                }
            },
        }
    }

    /// Inserts `data` into the buffer at the cursor position, recording
    /// the insertion so that it can be undone.
    pub fn insert(&mut self, data: &str)
        requires
            old(self).wf(),
        ensures
            final(self).wf(),
            GapBuffer::insert_step(
                old(self).gap,
                final(self).gap,
                encode_utf8(data@),
                old(self).cursor.position,
            ),
            final(self).cursor == old(self).cursor,
            recorded_op(
                Buffer { gap: final(self).gap, ..*old(self) },
                *final(self),
                OpView::Insert { content: data@, position: old(self).cursor.position },
            ),
    {
        // Build and run an insert operation.
        let op = Insert::new(data.to_owned(), self.cursor.position);
        op.run(self);
        // Store the operation so that it can be undone.
        self.record(Operation::Insert(op));
    }

    /// The view a delete over `range` records: the deleted text has been
    /// captured from the buffer.
    pub open spec fn delete_view(self, range: Range) -> OpView {
        OpView::Delete {
            content: match self.gap.read_result(range) {
                Some(bs) => Some(decode_utf8(bs)),
                None => None,
            },
            range,
        }
    }

    /// Removes a range of characters from the buffer, recording the
    /// deletion so that it can be undone.
    pub fn delete_range(&mut self, range: Range)
        requires
            old(self).wf(),
        ensures
            final(self).wf(),
            GapBuffer::delete_step(old(self).gap, final(self).gap, range),
            final(self).cursor == old(self).cursor,
            recorded_op(
                Buffer { gap: final(self).gap, ..*old(self) },
                *final(self),
                old(self).delete_view(range),
            ),
    {
        // Build and run a delete operation.
        let mut op = Delete::new(range);
        op.run(self);
        // Store the operation so that it can be undone.
        self.record(Operation::Delete(op));
    }

    /// The range a `delete` at the cursor covers: the character to the
    /// right of the cursor when there is one, and otherwise the newline
    /// that joins the next line, when there is one.
    pub open spec fn delete_target(self) -> Range {
        let start = self.cursor.position;
        let next_column = Position { line: start.line, offset: (start.offset + 1) as usize };
        if self.gap.resolve(next_column) is Some {
            Range { start, end: next_column }
        } else {
            Range { start, end: Position { line: (start.line + 1) as usize, offset: 0 } }
        }
    }

    /// Deletes a character at the cursor position. If at the end of the
    /// current line, it will try to delete the newline character (joining
    /// the lines), succeeding if there is a line below.
    pub fn delete(&mut self)
        requires
            old(self).wf(),
            old(self).cursor.position.offset < usize::MAX,
            old(self).cursor.position.line < usize::MAX,
        ensures
            final(self).wf(),
            GapBuffer::delete_step(old(self).gap, final(self).gap, old(self).delete_target()),
            final(self).cursor == old(self).cursor,
            recorded_op(
                Buffer { gap: final(self).gap, ..*old(self) },
                *final(self),
                old(self).delete_view(old(self).delete_target()),
            ),
    {
        // We need to specify a range to delete, so start at the current
        // offset and delete the character to the right.
        let start = self.cursor.position;
        let mut end = Position { line: start.line, offset: start.offset + 1 };

        // If there isn't a character to the right, delete the newline by
        // jumping to the start of the next line.
        if !self.gap.in_bounds(&end) {
            end = Position { line: start.line + 1, offset: 0 };
        }
        let range = Range::new(start, end);
        proof {
            assert(pos_le(start, end));
            assert(range == old(self).delete_target());
        }
        self.delete_range(range);
    }

    /// Installs new whole-buffer content without touching the history,
    /// making best efforts to retain the cursor position: the full
    /// position when it still exists, else the start of its line, else
    /// the origin.
    pub(crate) fn replace_content_inner(&mut self, content: String)
        requires
            old(self).wf(),
        ensures
            final(self).wf(),
            replaced_content(*old(self), *final(self), content@),
            crate::operations::buffer_edited(*old(self), *final(self)),
    {
        let prior = self.cursor.position;
        let gap = GapBuffer::new(content);
        let mut cursor = Cursor::new(Position { line: 0, offset: 0 });
        // Try to retain the cursor position, or at least its line.
        if !cursor.move_to(&gap, prior) {
            cursor.move_to(&gap, Position { line: prior.line, offset: 0 });
        }
        self.gap = gap;
        self.cursor = cursor;
    }

    /// Installs new whole-buffer content, as `reload` does: the history
    /// is left alone, and the cursor keeps as much of its position as the
    /// new content allows.
    pub fn replace_content(&mut self, content: &str)
        requires
            old(self).wf(),
        ensures
            final(self).wf(),
            replaced_content(*old(self), *final(self), content@),
            crate::operations::buffer_edited(*old(self), *final(self)),
    {
        self.replace_content_inner(content.to_owned());
    }

    /// Replaces the buffer's contents with the provided data, recording
    /// the replacement so that it can be undone. A replacement that does
    /// not change the content is ignored: it records no history and does
    /// not flag the buffer as modified.
    pub fn replace(&mut self, content: &str)
        requires
            old(self).wf(),
        ensures
            final(self).wf(),
            decode_utf8(old(self).gap.content()) == content@ ==> *final(self) == *old(self),
            decode_utf8(old(self).gap.content()) != content@ ==> replaced_content(
                *old(self),
                *final(self),
                content@,
            ) && recorded_op(
                Buffer { gap: final(self).gap, cursor: final(self).cursor, ..*old(self) },
                *final(self),
                OpView::Replace {
                    old_content: decode_utf8(old(self).gap.content()),
                    new_content: content@,
                },
            ),
    {
        let old_content = self.data();

        // Ignore replacements that don't change content.
        let mine = old_content.as_str().as_bytes_vec();
        let theirs = content.as_bytes_vec();
        if mine == theirs {
            proof {
                assert(mine@ =~= theirs@);
                assert(decode_utf8(old(self).gap.content()) == content@);
            }
            return ;
        }
        proof {
            if decode_utf8(old(self).gap.content()) == content@ {
                assert(old(self).gap.content() == encode_utf8(content@));
                assert(mine@ =~= theirs@);
                assert(false);
            }
        }

        // Build and run a replace operation.
        let op = Replace::new(old_content, content.to_owned());
        op.run(self);
        // Store the operation so that it can be undone.
        self.record(Operation::Replace(op));
    }

    /// Reverses the last modification to the buffer: the open operation
    /// group when one is open and holds anything, and the most recently
    /// run operation otherwise.
    pub fn undo(&mut self)
        requires
            old(self).wf(),
        ensures
            final(self).wf(),
            undone(*old(self), *final(self)),
    {
        // Look for an operation to undo. First, check if there's an open,
        // non-empty operation group. If not, try taking the last
        // operation from the buffer history.
        let taken = self.operation_group.take();
        let operation: Option<Operation> = match taken {
            Some(group) => {
                if group.is_empty() {
                    self.history.previous()
                } else {
                    Some(Operation::Group(group))
                }
            },
            None => self.history.previous(),
        };

        // If we found an eligible operation, reverse it.
        match operation {
            Some(op) => {
                let ghost bm = *self;
                op.reverse(self);
                proof {
                    assert(op_rev_rel(op_view(op), bm, *self));
                }
            },
            None => {
            },
        }
    }

    /// Re-applies the last undone modification to the buffer.
    pub fn redo(&mut self)
        requires
            old(self).wf(),
        ensures
            final(self).wf(),
            redone(*old(self), *final(self)),
    {
        // Look for an operation to apply.
        match self.history.next() {
            Some(mut op) => {
                let ghost bm = *self;
                let ghost v1 = op_view(op);
                op.run(self);
                proof {
                    assert(op_run_rel(v1, op_view(op), bm, *self));
                }
            },
            None => {
            },
        }
    }

    /// Tries to read the specified range from the buffer.
    pub fn read(&self, range: &Range) -> (r: Option<String>)
        requires
            self.wf(),
        ensures
            r is Some <==> self.gap.read_result(*range) is Some,
            r matches Some(text) ==> text@ == decode_utf8(self.gap.read_result(*range).unwrap()),
    {
        self.gap.read(range)
    }

    /// Whether or not the buffer has been modified since being read from
    /// or written to disk. Buffers that never were in sync with a file
    /// are always considered modified.
    pub fn modified(&self) -> (r: bool)
        ensures
            r == (self.history.spec_marked() != Some(
                self.history.spec_previous().len() as usize,
            )),
    {
        !self.history.at_mark()
    }

    /// Records that the buffer is now in sync with its on-disk
    /// counterpart, as after a successful save.
    pub fn mark(&mut self)
        requires
            old(self).wf(),
        ensures
            final(self).wf(),
            final(self).history.spec_previous() == old(self).history.spec_previous(),
            final(self).history.spec_next() == old(self).history.spec_next(),
            final(self).history.spec_marked() == Some(
                old(self).history.spec_previous().len() as usize,
            ),
            final(self).gap == old(self).gap,
            final(self).cursor == old(self).cursor,
            final(self).id == old(self).id,
            final(self).path == old(self).path,
            final(self).operation_group == old(self).operation_group,
            final(self).syntax_definition == old(self).syntax_definition,
    {
        self.history.mark();
    }

    /// The number of lines in the buffer, including trailing newlines.
    pub fn line_count(&self) -> (r: usize)
        requires
            self.wf(),
            self.gap.content().len() < usize::MAX,
        ensures
            r == byte_newlines(self.gap.content()) + 1,
    {
        let data = self.data();
        let bytes = data.as_str().as_bytes_vec();
        proof {
            crate::text::lemma_byte_newlines_bound(bytes@);
        }
        let newlines = count_newline_bytes(bytes.as_slice());
        newlines + 1
    }

    /// Returns the file name portion of the buffer's path, if the path is
    /// set and names a file: the part after the last path separator, when
    /// it is neither empty nor a relative-directory component.
    pub fn file_name(&self) -> (r: Option<String>)
        ensures
            match self.path {
                Some(p) => match file_name_spec(encode_utf8(p@)) {
                    Some(name) => r matches Some(text) && text@ == decode_utf8(name),
                    None => r is None,
                },
                None => r is None,
            },
    {
        match &self.path {
            Some(p) => file_name_of(p.as_str()),
            None => None,
        }
    }

    /// Returns the buffer path's file extension: the part of its file
    /// name after the last dot, when the dot neither leads the name nor
    /// ends it.
    pub fn file_extension(&self) -> (r: Option<String>)
        ensures
            match self.path {
                Some(p) => match extension_spec(encode_utf8(p@)) {
                    Some(ext) => r matches Some(text) && text@ == decode_utf8(ext),
                    None => r is None,
                },
                None => r is None,
            },
    {
        match &self.path {
            Some(p) => extension_of(p.as_str()),
            None => None,
        }
    }

    /// Searches the buffer for occurrences of `needle`, line by line.
    /// Each hit is reported as its line index and the byte offset within
    /// that line; hits are only reported at character starts, in order.
    pub fn search(&self, needle: &str) -> (r: Vec<Position>)
        requires
            self.wf(),
        ensures
            forall|k: int|
                0 <= k < r@.len() ==> search_match(
                    self.gap.content(),
                    encode_utf8(needle@),
                    (#[trigger] r@[k]).line as int,
                    r@[k].offset as int,
                ),
            forall|k: int| 0 <= k < r@.len() - 1 ==> pos_lt(#[trigger] r@[k], r@[k + 1]),
            forall|l: int, o: int|
                #[trigger] search_match(self.gap.content(), encode_utf8(needle@), l, o)
                    ==> exists|k: int|
                    0 <= k < r@.len() && (#[trigger] r@[k]).line == l && r@[k].offset == o,
    {
        let data = self.data();
        let bytes = data.as_str().as_bytes_vec();
        let needle_bytes = needle.as_bytes_vec();
        let ghost content = self.gap.content();
        let ghost nv = encode_utf8(needle@);
        let lines = split_into_lines(&bytes);
        let mut results: Vec<Position> = Vec::new();
        let mut li: usize = 0;
        let line_count = lines.len();
        while li < line_count
            invariant
                0 <= li <= line_count,
                line_count == split_lines(content).len(),
                crate::text::views(lines@) == split_lines(content),
                forall|t: int|
                    0 <= t < lines@.len() ==> valid_utf8((#[trigger] lines@[t])@),
                needle_bytes@ == nv,
                forall|k: int|
                    0 <= k < results@.len() ==> search_match(
                        content,
                        nv,
                        (#[trigger] results@[k]).line as int,
                        results@[k].offset as int,
                    ),
                forall|k: int|
                    0 <= k < results@.len() - 1 ==> pos_lt(
                        #[trigger] results@[k],
                        results@[k + 1],
                    ),
                forall|k: int|
                    0 <= k < results@.len() ==> (#[trigger] results@[k]).line < li,
                forall|l: int, o: int|
                    #[trigger] search_match(content, nv, l, o) && l < li ==> exists|k: int|
                        0 <= k < results@.len() && (#[trigger] results@[k]).line == l
                            && results@[k].offset == o,
            decreases line_count - li,
        {
            let line = &lines[li];
            let line_len = line.len();
            let mut j: usize = 0;
            while j < line_len
                invariant
                    0 <= j <= line_len,
                    0 <= li < line_count,
                    line_count == split_lines(content).len(),
                    crate::text::views(lines@) == split_lines(content),
                    forall|t: int|
                        0 <= t < lines@.len() ==> valid_utf8((#[trigger] lines@[t])@),
                    line == lines@[li as int],
                    line_len == line@.len(),
                    needle_bytes@ == nv,
                    forall|k: int|
                        0 <= k < results@.len() ==> search_match(
                            content,
                            nv,
                            (#[trigger] results@[k]).line as int,
                            results@[k].offset as int,
                        ),
                    forall|k: int|
                        0 <= k < results@.len() - 1 ==> pos_lt(
                            #[trigger] results@[k],
                            results@[k + 1],
                        ),
                    forall|k: int|
                        0 <= k < results@.len() ==> (#[trigger] results@[k]).line < li || (
                        results@[k].line == li && results@[k].offset < j),
                    forall|l: int, o: int|
                        #[trigger] search_match(content, nv, l, o) && (l < li || (l == li && o
                            < j)) ==> exists|k: int|
                            0 <= k < results@.len() && (#[trigger] results@[k]).line == l
                                && results@[k].offset == o,
                decreases line_len - j,
            {
                let b = line[j];
                let boundary = b < 128 || b >= 192;
                proof {
                    vstd::utf8::is_char_boundary_iff_not_is_continuation_byte(
                        line@,
                        j as int,
                    );
                }
                let hit = boundary && bytes_match(line, j, &needle_bytes);
                if hit {
                    let ghost pre = results@;
                    results.push(Position { line: li, offset: j });
                    proof {
                        assert(search_match(content, nv, li as int, j as int));
                        assert forall|l: int, o: int|
                            #[trigger] search_match(content, nv, l, o) && (l < li || (l == li
                                && o < j + 1)) implies exists|k: int|
                                0 <= k < results@.len() && (#[trigger] results@[k]).line == l
                                    && results@[k].offset == o by {
                            if l == li && o == j {
                                assert(results@[results@.len() - 1].line == l);
                            } else {
                                assert(exists|k: int|
                                    0 <= k < pre.len() && (#[trigger] pre[k]).line == l
                                        && pre[k].offset == o);
                                let k = choose|k: int|
                                    0 <= k < pre.len() && (#[trigger] pre[k]).line == l
                                        && pre[k].offset == o;
                                assert(results@[k].line == l && results@[k].offset == o);
                            }
                        }
                    }
                } else {
                    proof {
                        assert(!search_match(content, nv, li as int, j as int));
                        assert forall|l: int, o: int|
                            #[trigger] search_match(content, nv, l, o) && (l < li || (l == li
                                && o < j + 1)) implies (l < li || (l == li && o < j)) by {}
                    }
                }
                j = j + 1;
            }
            proof {
                assert forall|l: int, o: int|
                    #[trigger] search_match(content, nv, l, o) && l < li + 1 implies (l < li
                        || (l == li && o < line_len)) by {}
            }
            li = li + 1;
        }
        proof {
            assert forall|l: int, o: int|
                #[trigger] search_match(content, nv, l, o) implies l < line_count by {}
        }
        results
    }

    /// Tells the buffer to start tracking operations as a single unit,
    /// until `end_operation_group` is called. Does nothing when a group
    /// is already open.
    pub fn start_operation_group(&mut self)
        requires
            old(self).wf(),
        ensures
            final(self).wf(),
            match old(self).operation_group {
                Some(_) => *final(self) == *old(self),
                None => {
                    &&& final(self).operation_group matches Some(g)
                        && g.spec_operations().len() == 0
                    &&& *final(self) == with_group(*old(self), final(self).operation_group)
                },
            },
    {
        // Create an operation group, if one doesn't already exist.
        match &self.operation_group {
            Some(_) => {
            },
            None => {
                self.operation_group = Some(OperationGroup::new());
            },
        }
    }

    /// Tells the buffer to stop tracking operations as a single unit: an
    /// open group with operations moves onto the history as one atomic
    /// operation, and an empty one is dropped.
    pub fn end_operation_group(&mut self)
        requires
            old(self).wf(),
        ensures
            final(self).wf(),
            final(self).operation_group is None,
            match old(self).operation_group {
                Some(g) => if g.spec_operations().len() > 0 {
                    &&& final(self).history.prev_views()
                        == old(self).history.prev_views().push(
                        OpView::Group { operations: g.views() },
                    )
                    &&& final(self).history.spec_next() == Seq::<Operation>::empty()
                    &&& *final(self) == Buffer {
                        operation_group: None,
                        history: final(self).history,
                        ..*old(self)
                    }
                } else {
                    *final(self) == with_group(*old(self), None)
                },
                None => *final(self) == *old(self),
            },
    {
        let ghost pre = *self;
        // Push an open operation group onto the history stack, if one
        // exists and holds anything.
        let taken = self.operation_group.take();
        match taken {
            Some(group) => {
                if !group.is_empty() {
                    self.history.add(Operation::Group(group));
                    proof {
                        let g = pre.operation_group.unwrap();
                        assert(self.history.prev_views() =~= pre.history.prev_views().push(
                            OpView::Group { operations: g.views() },
                        ));
                    }
                }
            },
            None => {
            },
        }
    }
}

} // verus!
