//! Reversible buffer operations.
//!
//! Operations encapsulate an action on a buffer that can be run and
//! reversed. They are directly tied to the history functionality, which
//! hands them back to the buffer to be reversed (undo) or re-run (redo).
//!
//! Specifications speak about operations through their [`OpView`]: the
//! mathematical content of an operation, with strings as character
//! sequences.

use vstd::prelude::*;
use vstd::utf8::{decode_utf8, encode_utf8};
use crate::buffer::Buffer;
use crate::distance::Distance;
use crate::gap_buffer::GapBuffer;
use crate::position::Position;
use crate::range::Range;
use crate::text::{byte_newlines, clusters, tail_length};

verus! {

/// A reversible buffer insert operation.
///
/// Inserts the provided content at the specified position. Reverses the
/// operation by computing the inserted content's end position, relative to
/// its inserted location, and removing said range from the underlying
/// buffer.
#[derive(Debug)]
pub struct Insert {
    pub content: String,
    pub position: Position,
}

/// A reversible buffer delete operation.
///
/// Deletes the content at the specified range. Captures the deleted
/// content when first run, and reverses the operation by re-inserting that
/// content at the start of the range. If the operation was never run, its
/// reverse does nothing.
#[derive(Debug)]
pub struct Delete {
    pub content: Option<String>,
    pub range: Range,
}

/// A reversible whole-buffer replacement.
///
/// Stores both the old and the new contents; running installs the new
/// content wholesale, reversing restores the old, in both cases retaining
/// as much of the cursor position as the new content allows.
#[derive(Debug)]
pub struct Replace {
    pub old_content: String,
    pub new_content: String,
}

/// A reversible buffer operation: one of the edit primitives, or an
/// atomic group of them.
#[derive(Debug)]
pub enum Operation {
    Insert(Insert),
    Delete(Delete),
    Replace(Replace),
    Group(OperationGroup),
}

/// A collection of operations run as a single, atomic operation.
///
/// Useful for composing smaller, related actions into a larger action from
/// a history standpoint: character-by-character insertions, for example,
/// can then be undone as words instead of one character at a time. Adding
/// a group to a group splices its operations in, so a group always holds
/// edit primitives only.
#[derive(Debug)]
pub struct OperationGroup {
    operations: Vec<Operation>,
}

/// The mathematical content of an operation.
pub enum OpView {
    Insert { content: Seq<char>, position: Position },
    Delete { content: Option<Seq<char>>, range: Range },
    Replace { old_content: Seq<char>, new_content: Seq<char> },
    Group { operations: Seq<OpView> },
}

/// The view of an edit primitive. A group nested where a primitive is
/// expected is out of the model and maps to an empty group.
pub open spec fn prim_view(op: Operation) -> OpView {
    match op {
        Operation::Insert(i) => OpView::Insert { content: i.content@, position: i.position },
        Operation::Delete(d) => OpView::Delete {
            content: match d.content {
                Some(text) => Some(text@),
                None => None,
            },
            range: d.range,
        },
        Operation::Replace(r) => OpView::Replace {
            old_content: r.old_content@,
            new_content: r.new_content@,
        },
        Operation::Group(_) => OpView::Group { operations: Seq::empty() },
    }
}

/// The view of an operation. Groups hold primitives only, so one level of
/// descent suffices.
pub open spec fn op_view(op: Operation) -> OpView {
    match op {
        Operation::Group(g) => OpView::Group {
            operations: g.spec_operations().map_values(|o: Operation| prim_view(o)),
        },
        _ => prim_view(op),
    }
}

/// Whether an operation is an edit primitive.
pub open spec fn is_primitive(op: Operation) -> bool {
    !(op is Group)
}

/// The position just past content inserted at `position`: the insertion
/// point advanced by the content's distance. Additions that would not fit
/// a `usize` are pinned at its maximum.
pub open spec fn insert_end(position: Position, content: Seq<char>) -> Position {
    let b = encode_utf8(content);
    let lines = byte_newlines(b);
    let tail = tail_length(clusters(b));
    let line = if position.line + lines <= usize::MAX {
        (position.line + lines) as usize
    } else {
        usize::MAX
    };
    let offset = if lines > 0 {
        if tail <= usize::MAX {
            tail as usize
        } else {
            usize::MAX
        }
    } else {
        if position.offset + tail <= usize::MAX {
            (position.offset + tail) as usize
        } else {
            usize::MAX
        }
    };
    Position { line, offset }
}

/// The ordered range between two positions, as `Range::new` builds it.
pub open spec fn spec_range(start: Position, end: Position) -> Range {
    if crate::position::pos_lt(end, start) {
        Range { start: end, end: start }
    } else {
        Range { start, end }
    }
}

/// Only the text and the cursor of the buffer change: its identity, path,
/// history, open operation group and syntax assignment stay as they were.
pub open spec fn buffer_edited(b1: Buffer, b2: Buffer) -> bool {
    &&& b2.id == b1.id
    &&& b2.path == b1.path
    &&& b2.history == b1.history
    &&& b2.operation_group == b1.operation_group
    &&& b2.syntax_definition == b1.syntax_definition
}

/// The outcome of installing whole-buffer content `s`: a fresh text store
/// holding exactly `s`, with the cursor kept at its prior position when
/// that position still exists, else at the start of its prior line, else
/// at the origin.
pub open spec fn replaced_content(b1: Buffer, b2: Buffer, s: Seq<char>) -> bool {
    &&& b2.gap.before() == encode_utf8(s)
    &&& b2.gap.after() == Seq::<u8>::empty()
    &&& b2.gap.content() == encode_utf8(s)
    &&& b2.gap.spec_gap_length() == 0
    &&& b2.gap.wf()
    &&& {
        let prior = b1.cursor.position;
        let line_start = Position { line: prior.line, offset: 0 };
        if b2.gap.resolve(prior) is Some {
            b2.cursor.position == prior && b2.cursor.sticky_offset == prior.offset
        } else if b2.gap.resolve(line_start) is Some {
            b2.cursor.position == line_start && b2.cursor.sticky_offset == 0
        } else {
            b2.cursor.position == (Position { line: 0, offset: 0 }) && b2.cursor.sticky_offset
                == 0
        }
    }
}

/// How running an edit primitive once changes its view: a delete captures
/// the text its range covers.
pub open spec fn prim_ran(v: OpView, g: GapBuffer) -> OpView {
    match v {
        OpView::Delete { content, range } => OpView::Delete {
            content: match g.read_result(range) {
                Some(bs) => Some(decode_utf8(bs)),
                None => None,
            },
            range,
        },
        _ => v,
    }
}

/// How running an edit primitive transforms the buffer.
pub open spec fn prim_run_rel(v: OpView, b1: Buffer, b2: Buffer) -> bool {
    &&& buffer_edited(b1, b2)
    &&& b2.gap.wf()
    &&& match v {
        OpView::Insert { content, position } => GapBuffer::insert_step(
            b1.gap,
            b2.gap,
            encode_utf8(content),
            position,
        ) && b2.cursor == b1.cursor,
        OpView::Delete { content: _, range } => GapBuffer::delete_step(b1.gap, b2.gap, range)
            && b2.cursor == b1.cursor,
        OpView::Replace { old_content: _, new_content } => replaced_content(
            b1,
            b2,
            new_content,
        ),
        OpView::Group { .. } => false,
    }
}

/// How reversing an edit primitive transforms the buffer.
pub open spec fn prim_rev_rel(v: OpView, b1: Buffer, b2: Buffer) -> bool {
    &&& buffer_edited(b1, b2)
    &&& b2.gap.wf()
    &&& match v {
        OpView::Insert { content, position } => GapBuffer::delete_step(
            b1.gap,
            b2.gap,
            spec_range(position, insert_end(position, content)),
        ) && b2.cursor == b1.cursor,
        OpView::Delete { content, range } => match content {
            Some(text) => GapBuffer::insert_step(
                b1.gap,
                b2.gap,
                encode_utf8(text),
                range.start,
            ) && b2.cursor == b1.cursor,
            None => b2 == b1,
        },
        OpView::Replace { old_content, new_content: _ } => replaced_content(
            b1,
            b2,
            old_content,
        ),
        OpView::Group { .. } => false,
    }
}

/// A sequence of edit primitives runs in order: `vs2` holds the views
/// after the run.
pub open spec fn run_chain(vs1: Seq<OpView>, vs2: Seq<OpView>, b1: Buffer, b2: Buffer) -> bool
    decreases vs1.len(),
{
    if vs1.len() == 0 {
        vs2.len() == 0 && b2 == b1
    } else {
        &&& vs2.len() == vs1.len()
        &&& vs2[0] == prim_ran(vs1[0], b1.gap)
        &&& exists|bm: Buffer|
            #[trigger] prim_run_rel(vs1[0], b1, bm) && run_chain(vs1.skip(1), vs2.skip(1), bm, b2)
    }
}

/// A sequence of edit primitives is reversed back to front: the first
/// operation of the sequence is the last one undone.
pub open spec fn rev_chain(vs: Seq<OpView>, b1: Buffer, b2: Buffer) -> bool
    decreases vs.len(),
{
    if vs.len() == 0 {
        b2 == b1
    } else {
        exists|bm: Buffer|
            rev_chain(vs.skip(1), b1, bm) && #[trigger] prim_rev_rel(vs[0], bm, b2)
    }
}

/// One step of a run chain, closed from its witness.
pub proof fn lemma_run_chain_step(
    vs1: Seq<OpView>,
    vs2: Seq<OpView>,
    b1: Buffer,
    bm: Buffer,
    b2: Buffer,
)
    requires
        vs1.len() > 0,
        vs2.len() == vs1.len(),
        vs2[0] == prim_ran(vs1[0], b1.gap),
        prim_run_rel(vs1[0], b1, bm),
        run_chain(vs1.skip(1), vs2.skip(1), bm, b2),
    ensures
        run_chain(vs1, vs2, b1, b2),
{
    assert(exists|b: Buffer|
        #[trigger] prim_run_rel(vs1[0], b1, b) && run_chain(vs1.skip(1), vs2.skip(1), b, b2));
}

/// One step of a reverse chain, closed from its witness.
pub proof fn lemma_rev_chain_step(vs: Seq<OpView>, b1: Buffer, bm: Buffer, b2: Buffer)
    requires
        vs.len() > 0,
        rev_chain(vs.skip(1), b1, bm),
        prim_rev_rel(vs[0], bm, b2),
    ensures
        rev_chain(vs, b1, b2),
{
    assert(exists|b: Buffer|
        #[trigger] rev_chain(vs.skip(1), b1, b) && prim_rev_rel(vs[0], b, b2));
}

/// How running an operation transforms the buffer and the operation
/// itself.
pub open spec fn op_run_rel(v1: OpView, v2: OpView, b1: Buffer, b2: Buffer) -> bool {
    match v1 {
        OpView::Group { operations } => match v2 {
            OpView::Group { operations: ran } => run_chain(operations, ran, b1, b2),
            _ => false,
        },
        _ => v2 == prim_ran(v1, b1.gap) && prim_run_rel(v1, b1, b2),
    }
}

/// How reversing an operation transforms the buffer.
pub open spec fn op_rev_rel(v: OpView, b1: Buffer, b2: Buffer) -> bool {
    match v {
        OpView::Group { operations } => rev_chain(operations, b1, b2),
        _ => prim_rev_rel(v, b1, b2),
    }
}

impl Insert {
    /// Creates a new insert operation.
    pub fn new(content: String, position: Position) -> (r: Insert)
        ensures
            r.content == content,
            r.position == position,
    {
        Insert { content, position }
    }

    /// Applies the insertion to the buffer's text.
    pub fn run(&self, buffer: &mut Buffer)
        requires
            old(buffer).wf(),
        ensures
            final(buffer).wf(),
            prim_run_rel(
                OpView::Insert { content: self.content@, position: self.position },
                *old(buffer),
                *final(buffer),
            ),
    {
        buffer.gap.insert(self.content.as_str(), &self.position);
    }

    /// Removes the inserted content again, by deleting the range it
    /// occupies.
    pub fn reverse(&self, buffer: &mut Buffer)
        requires
            old(buffer).wf(),
        ensures
            final(buffer).wf(),
            prim_rev_rel(
                OpView::Insert { content: self.content@, position: self.position },
                *old(buffer),
                *final(buffer),
            ),
    {
        let distance = Distance::of_str(self.content.as_str());
        let end_line = if distance.lines <= usize::MAX - self.position.line {
            self.position.line + distance.lines
        } else {
            usize::MAX
        };
        let end_offset = if distance.lines > 0 {
            distance.offset
        } else {
            if distance.offset <= usize::MAX - self.position.offset {
                self.position.offset + distance.offset
            } else {
                usize::MAX
            }
        };
        let end_position = Position { line: end_line, offset: end_offset };
        proof {
            assert(end_position == insert_end(self.position, self.content@));
        }
        let range = Range::new(self.position, end_position);
        buffer.gap.delete(&range);
    }
}

impl Delete {
    /// Creates a new delete operation covering the given range. The
    /// content field is populated when the operation first runs.
    pub fn new(range: Range) -> (r: Delete)
        ensures
            r.content is None,
            r.range == range,
    {
        Delete { content: None, range }
    }

    /// Captures the content of the range, then deletes it.
    pub fn run(&mut self, buffer: &mut Buffer)
        requires
            old(buffer).wf(),
        ensures
            final(buffer).wf(),
            prim_view(Operation::Delete(*final(self))) == prim_ran(
                prim_view(Operation::Delete(*old(self))),
                old(buffer).gap,
            ),
            prim_run_rel(
                prim_view(Operation::Delete(*old(self))),
                *old(buffer),
                *final(buffer),
            ),
    {
        // Fetch and store the content we're about to delete.
        self.content = buffer.gap.read(&self.range);
        // Delete the data.
        buffer.gap.delete(&self.range);
    }

    /// Re-inserts the captured content at the start of the range. Does
    /// nothing when the operation was never run.
    pub fn reverse(&self, buffer: &mut Buffer)
        requires
            old(buffer).wf(),
        ensures
            final(buffer).wf(),
            prim_rev_rel(
                prim_view(Operation::Delete(*self)),
                *old(buffer),
                *final(buffer),
            ),
    {
        if let Some(content) = &self.content {
            buffer.gap.insert(content.as_str(), &self.range.start);
        }
    }
}

impl Replace {
    /// Creates a new replace operation between the two whole-buffer
    /// contents.
    pub fn new(old_content: String, new_content: String) -> (r: Replace)
        ensures
            r.old_content == old_content,
            r.new_content == new_content,
    {
        Replace { old_content, new_content }
    }

    /// Installs the new content.
    pub fn run(&self, buffer: &mut Buffer)
        requires
            old(buffer).wf(),
        ensures
            final(buffer).wf(),
            prim_run_rel(
                OpView::Replace {
                    old_content: self.old_content@,
                    new_content: self.new_content@,
                },
                *old(buffer),
                *final(buffer),
            ),
    {
        let content = self.new_content.clone();
        buffer.replace_content_inner(content);
    }

    /// Restores the old content.
    pub fn reverse(&self, buffer: &mut Buffer)
        requires
            old(buffer).wf(),
        ensures
            final(buffer).wf(),
            prim_rev_rel(
                OpView::Replace {
                    old_content: self.old_content@,
                    new_content: self.new_content@,
                },
                *old(buffer),
                *final(buffer),
            ),
    {
        let content = self.old_content.clone();
        buffer.replace_content_inner(content);
    }
}

impl Operation {
    /// Whether the operation is an edit primitive, or a group of them.
    pub open spec fn flat(self) -> bool {
        match self {
            Operation::Group(g) => g.flat(),
            _ => true,
        }
    }

    /// Runs the operation against the buffer.
    pub fn run(&mut self, buffer: &mut Buffer)
        requires
            old(buffer).wf(),
            old(self).flat(),
        ensures
            final(buffer).wf(),
            final(self).flat(),
            op_run_rel(
                op_view(*old(self)),
                op_view(*final(self)),
                *old(buffer),
                *final(buffer),
            ),
    {
        match self {
            Operation::Insert(op) => op.run(buffer),
            Operation::Delete(op) => op.run(buffer),
            Operation::Replace(op) => op.run(buffer),
            Operation::Group(group) => group.run(buffer),
        }
    }

    /// Reverses the operation against the buffer.
    pub fn reverse(&self, buffer: &mut Buffer)
        requires
            old(buffer).wf(),
            self.flat(),
        ensures
            final(buffer).wf(),
            op_rev_rel(op_view(*self), *old(buffer), *final(buffer)),
    {
        match self {
            Operation::Insert(op) => op.reverse(buffer),
            Operation::Delete(op) => op.reverse(buffer),
            Operation::Replace(op) => op.reverse(buffer),
            Operation::Group(group) => group.reverse(buffer),
        }
    }

    /// A deep copy of the operation, with the same view.
    pub fn duplicate(&self) -> (r: Operation)
        requires
            self.flat(),
        ensures
            r.flat(),
            op_view(r) == op_view(*self),
    {
        match self {
            Operation::Insert(op) => Operation::Insert(
                Insert { content: op.content.clone(), position: op.position },
            ),
            Operation::Delete(op) => Operation::Delete(
                Delete {
                    content: match &op.content {
                        Some(text) => Some(text.clone()),
                        None => None,
                    },
                    range: op.range,
                },
            ),
            Operation::Replace(op) => Operation::Replace(
                Replace {
                    old_content: op.old_content.clone(),
                    new_content: op.new_content.clone(),
                },
            ),
            Operation::Group(group) => Operation::Group(group.duplicate()),
        }
    }
}

impl OperationGroup {
    /// Groups hold edit primitives only; groups added to a group are
    /// spliced in.
    pub open spec fn flat(self) -> bool {
        forall|i: int|
            0 <= i < self.spec_operations().len() ==> is_primitive(
                #[trigger] self.spec_operations()[i],
            )
    }

    /// The operations of the group, in the order they run.
    pub closed spec fn spec_operations(self) -> Seq<Operation> {
        self.operations@
    }

    /// The views of the group's operations.
    pub open spec fn views(self) -> Seq<OpView> {
        self.spec_operations().map_values(|o: Operation| prim_view(o))
    }

    /// Creates a new empty operation group.
    pub fn new() -> (r: OperationGroup)
        ensures
            r.spec_operations() == Seq::<Operation>::empty(),
            r.flat(),
    {
        OperationGroup { operations: Vec::new() }
    }

    /// Adds an operation to the group. A group is spliced in, so that the
    /// group remains a flat sequence of edit primitives.
    pub fn add(&mut self, operation: Operation)
        requires
            old(self).flat(),
            operation.flat(),
        ensures
            final(self).flat(),
            final(self).spec_operations() == match operation {
                Operation::Group(inner) => old(self).spec_operations() + inner.spec_operations(),
                _ => old(self).spec_operations().push(operation),
            },
    {
        let ghost pre = *self;
        match operation {
            Operation::Group(inner) => {
                let ghost innerv = inner.spec_operations();
                let mut rest = inner.operations;
                self.operations.append(&mut rest);
                proof {
                    assert(self.spec_operations() =~= pre.spec_operations() + innerv);
                    assert forall|i: int|
                        0 <= i < self.spec_operations().len() implies is_primitive(
                        #[trigger] self.spec_operations()[i],
                    ) by {
                        if i < pre.spec_operations().len() {
                            assert(self.spec_operations()[i] == pre.spec_operations()[i]);
                        } else {
                            assert(self.spec_operations()[i] == innerv[i - pre.spec_operations().len()]);
                        }
                    }
                }
            },
            _ => {
                self.operations.push(operation);
            },
        }
    }

    /// Whether or not the group contains any operations.
    pub fn is_empty(&self) -> (r: bool)
        ensures
            r == (self.spec_operations().len() == 0),
    {
        self.operations.is_empty()
    }

    /// Runs all of the group's individual operations, in order.
    pub fn run(&mut self, buffer: &mut Buffer)
        requires
            old(buffer).wf(),
            old(self).flat(),
        ensures
            final(buffer).wf(),
            final(self).flat(),
            run_chain(old(self).views(), final(self).views(), *old(buffer), *final(buffer)),
    {
        proof {
            assert(forall|j: int|
                0 <= j < self.operations@.len() ==> is_primitive(#[trigger] self.operations@[j]))
                by {
                assert(forall|j: int|
                    0 <= j < self.operations@.len() ==> self.operations@[j]
                        == (#[trigger] self.spec_operations()[j]));
            }
        }
        run_from(&mut self.operations, 0, buffer);
        proof {
            assert(old(self).views() =~= old(self).views().skip(0));
            assert(self.views() =~= self.views().skip(0));
            assert(forall|j: int|
                0 <= j < self.spec_operations().len() ==> is_primitive(
                    #[trigger] self.spec_operations()[j],
                )) by {
                assert(forall|j: int|
                    0 <= j < self.spec_operations().len() ==> (#[trigger] self.spec_operations(
                    )[j]) == self.operations@[j]);
            }
        }
    }

    /// Reverses all of the group's individual operations, in reverse
    /// order.
    pub fn reverse(&self, buffer: &mut Buffer)
        requires
            old(buffer).wf(),
            self.flat(),
        ensures
            final(buffer).wf(),
            rev_chain(self.views(), *old(buffer), *final(buffer)),
    {
        proof {
            assert(forall|j: int|
                0 <= j < self.operations@.len() ==> is_primitive(#[trigger] self.operations@[j]))
                by {
                assert(forall|j: int|
                    0 <= j < self.operations@.len() ==> self.operations@[j]
                        == (#[trigger] self.spec_operations()[j]));
            }
        }
        reverse_from(&self.operations, 0, buffer);
        proof {
            assert(self.views() =~= self.views().skip(0));
        }
    }

    /// A deep copy of the group, with the same views.
    pub fn duplicate(&self) -> (r: OperationGroup)
        requires
            self.flat(),
        ensures
            r.flat(),
            r.views() == self.views(),
    {
        let mut copies: Vec<Operation> = Vec::new();
        let mut i: usize = 0;
        let len = self.operations.len();
        while i < len
            invariant
                0 <= i <= len,
                len == self.spec_operations().len(),
                self.flat(),
                copies@.len() == i,
                forall|j: int|
                    0 <= j < i ==> is_primitive(#[trigger] copies@[j]) && prim_view(copies@[j])
                        == prim_view(self.spec_operations()[j]),
            decreases len - i,
        {
            let op = &self.operations[i];
            let copy = match op {
                Operation::Insert(o) => Operation::Insert(
                    Insert { content: o.content.clone(), position: o.position },
                ),
                Operation::Delete(o) => Operation::Delete(
                    Delete {
                        content: match &o.content {
                            Some(text) => Some(text.clone()),
                            None => None,
                        },
                        range: o.range,
                    },
                ),
                Operation::Replace(o) => Operation::Replace(
                    Replace {
                        old_content: o.old_content.clone(),
                        new_content: o.new_content.clone(),
                    },
                ),
                Operation::Group(_) => Operation::Group(OperationGroup { operations: Vec::new() }),
            };
            copies.push(copy);
            i = i + 1;
        }
        let r = OperationGroup { operations: copies };
        proof {
            assert(r.views() =~= self.views());
        }
        r
    }
}

/// Runs the operations from index `i` on, in order.
fn run_from(ops: &mut Vec<Operation>, i: usize, buffer: &mut Buffer)
    requires
        old(buffer).wf(),
        i <= old(ops)@.len(),
        forall|j: int| 0 <= j < old(ops)@.len() ==> is_primitive(#[trigger] old(ops)@[j]),
    ensures
        final(buffer).wf(),
        final(ops)@.len() == old(ops)@.len(),
        forall|j: int| 0 <= j < final(ops)@.len() ==> is_primitive(#[trigger] final(ops)@[j]),
        final(ops)@.take(i as int) == old(ops)@.take(i as int),
        run_chain(
            old(ops)@.map_values(|o: Operation| prim_view(o)).skip(i as int),
            final(ops)@.map_values(|o: Operation| prim_view(o)).skip(i as int),
            *old(buffer),
            *final(buffer),
        ),
    decreases old(ops)@.len() - i,
{
    let ghost vs1 = old(ops)@.map_values(|o: Operation| prim_view(o));
    if i == ops.len() {
        proof {
            assert(final(ops)@.take(i as int) =~= old(ops)@.take(i as int));
            assert(vs1.skip(i as int).len() == 0);
        }
        return ;
    }
    let ghost b0 = *buffer;
    let op = &mut ops[i];
    let ghost op0 = *op;
    match op {
        Operation::Insert(o) => o.run(buffer),
        Operation::Delete(o) => o.run(buffer),
        Operation::Replace(o) => o.run(buffer),
        Operation::Group(_) => {
        },
    }
    let ghost bm = *buffer;
    let ghost opsm = ops@;
    proof {
        assert(prim_run_rel(prim_view(op0), b0, bm));
        assert(prim_view(opsm[i as int]) == prim_ran(prim_view(op0), b0.gap));
    }
    run_from(ops, i + 1, buffer);
    proof {
        let vs1s = vs1.skip(i as int);
        let vs2 = ops@.map_values(|o: Operation| prim_view(o));
        let vs2s = vs2.skip(i as int);
        assert(ops@.take(i as int) =~= old(ops)@.take(i as int));
        assert(vs1s[0] == prim_view(old(ops)@[i as int]));
        assert(vs2s[0] == prim_view(ops@[i as int]));
        assert(ops@[i as int] == opsm[i as int]) by {
            assert(ops@.take(i as int + 1) == opsm.take(i as int + 1));
            assert(ops@.take(i as int + 1)[i as int] == ops@[i as int]);
            assert(opsm.take(i as int + 1)[i as int] == opsm[i as int]);
        }
        assert(vs1s.skip(1) =~= old(ops)@.map_values(|o: Operation| prim_view(o)).skip(
            i as int + 1,
        ));
        assert(vs2s.skip(1) =~= ops@.map_values(|o: Operation| prim_view(o)).skip(i as int + 1));
        assert(opsm.map_values(|o: Operation| prim_view(o)).skip(i as int + 1)
            =~= old(ops)@.map_values(|o: Operation| prim_view(o)).skip(i as int + 1));
        assert(vs2s[0] == prim_ran(vs1s[0], b0.gap));
        assert(vs1s.len() > 0);
        assert(prim_run_rel(vs1s[0], b0, bm) && run_chain(vs1s.skip(1), vs2s.skip(1), bm, *buffer));
        lemma_run_chain_step(vs1s, vs2s, b0, bm, *buffer);
    }
}

/// Reverses the operations from index `i` on: those after it first, then
/// the one at `i` itself.
fn reverse_from(ops: &Vec<Operation>, i: usize, buffer: &mut Buffer)
    requires
        old(buffer).wf(),
        i <= ops@.len(),
        forall|j: int| 0 <= j < ops@.len() ==> is_primitive(#[trigger] ops@[j]),
    ensures
        final(buffer).wf(),
        rev_chain(
            ops@.map_values(|o: Operation| prim_view(o)).skip(i as int),
            *old(buffer),
            *final(buffer),
        ),
    decreases ops@.len() - i,
{
    let ghost vs = ops@.map_values(|o: Operation| prim_view(o));
    if i == ops.len() {
        proof {
            assert(vs.skip(i as int).len() == 0);
        }
        return ;
    }
    reverse_from(ops, i + 1, buffer);
    let ghost bm = *buffer;
    let op = &ops[i];
    match op {
        Operation::Insert(o) => o.reverse(buffer),
        Operation::Delete(o) => o.reverse(buffer),
        Operation::Replace(o) => o.reverse(buffer),
        Operation::Group(_) => {
        },
    }
    proof {
        let vss = vs.skip(i as int);
        assert(vss[0] == prim_view(ops@[i as int]));
        assert(vss.skip(1) =~= vs.skip(i as int + 1));
        assert(vss.len() > 0);
        assert(rev_chain(vss.skip(1), *old(buffer), bm) && prim_rev_rel(vss[0], bm, *buffer));
        lemma_rev_chain_step(vss, *old(buffer), bm, *buffer);
    }
}

} // verus!
