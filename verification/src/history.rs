//! A linear, reversible log of buffer operations.

use vstd::prelude::*;
use crate::operations::{op_view, OpView, Operation};

verus! {

/// Every operation in the sequence is an edit primitive or a flat group
/// of them.
pub open spec fn all_flat(ops: Seq<Operation>) -> bool {
    forall|i: int| 0 <= i < ops.len() ==> (#[trigger] ops[i]).flat()
}

/// Tracks a series of operations.
///
/// Represents a linear history that can be traversed backwards and
/// forwards. Adding a new operation to the history clears any previously
/// reversed operations, which would otherwise have been eligible to be
/// redone. The marked position, when set, names the length `previous` has
/// exactly when the buffer matches its on-disk counterpart.
pub struct History {
    previous: Vec<Operation>,
    next: Vec<Operation>,
    marked_position: Option<usize>,
}

impl History {
    /// The operations that have been run, oldest first.
    pub closed spec fn spec_previous(self) -> Seq<Operation> {
        self.previous@
    }

    /// The operations that have been reversed and can be re-run, oldest
    /// first.
    pub closed spec fn spec_next(self) -> Seq<Operation> {
        self.next@
    }

    /// The views of the run operations, oldest first.
    pub open spec fn prev_views(self) -> Seq<OpView> {
        self.spec_previous().map_values(|o: Operation| op_view(o))
    }

    /// The views of the reversed operations, oldest first.
    pub open spec fn next_views(self) -> Seq<OpView> {
        self.spec_next().map_values(|o: Operation| op_view(o))
    }

    /// The length `previous` has when the buffer matches the on-disk file,
    /// if such a point is still reachable.
    pub closed spec fn spec_marked(self) -> Option<usize> {
        self.marked_position
    }

    /// Every operation in the history is an edit primitive or a flat
    /// group of them.
    pub open spec fn flat(self) -> bool {
        all_flat(self.spec_previous()) && all_flat(self.spec_next())
    }

    /// Creates a new empty operation history.
    pub fn new() -> (r: History)
        ensures
            r.spec_previous() == Seq::<Operation>::empty(),
            r.spec_next() == Seq::<Operation>::empty(),
            r.spec_marked() is None,
            r.flat(),
    {
        History { previous: Vec::new(), next: Vec::new(), marked_position: None }
    }

    /// Store an operation that has already been run. Any reversed
    /// operations can no longer be redone; a mark that pointed past the
    /// new operation is no longer reachable and is cleared.
    pub fn add(&mut self, operation: Operation)
        requires
            old(self).flat(),
            operation.flat(),
        ensures
            final(self).flat(),
            final(self).spec_previous() == old(self).spec_previous().push(operation),
            final(self).spec_next() == Seq::<Operation>::empty(),
            final(self).spec_marked() == match old(self).spec_marked() {
                Some(position) => if position > old(self).spec_previous().len() {
                    None::<usize>
                } else {
                    Some(position)
                },
                None => None::<usize>,
            },
    {
        self.previous.push(operation);
        self.next.clear();

        // Clear the marked position if we've replaced a prior operation.
        if let Some(position) = self.marked_position {
            if position >= self.previous.len() {
                self.marked_position = None;
            }
        }
        proof {
            assert(self.spec_next() =~= Seq::<Operation>::empty());
        }
    }

    /// Navigate the history backwards: the most recently run operation is
    /// handed to the caller (which is expected to reverse it), and a copy
    /// of it becomes eligible to be redone.
    pub fn previous(&mut self) -> (r: Option<Operation>)
        requires
            old(self).flat(),
        ensures
            final(self).flat(),
            match r {
                Some(operation) => {
                    &&& old(self).spec_previous().len() > 0
                    &&& operation == old(self).spec_previous().last()
                    &&& operation.flat()
                    &&& final(self).spec_previous() == old(self).spec_previous().drop_last()
                    &&& final(self).next_views() == old(self).next_views().push(
                        op_view(operation),
                    )
                },
                None => {
                    &&& old(self).spec_previous().len() == 0
                    &&& final(self).spec_previous() == old(self).spec_previous()
                    &&& final(self).spec_next() == old(self).spec_next()
                },
            },
            final(self).spec_marked() == old(self).spec_marked(),
    {
        let ghost pre = *self;
        match self.previous.pop() {
            Some(operation) => {
                proof {
                    assert(operation == pre.spec_previous()[pre.spec_previous().len() - 1]);
                    assert(operation.flat());
                }
                // Keep a copy so that it can be re-applied as a redo operation.
                let redo = operation.duplicate();
                self.next.push(redo);
                proof {
                    assert(self.next_views() =~= pre.next_views().push(op_view(operation)));
                    assert forall|i: int|
                        0 <= i < self.spec_previous().len() implies (
                    #[trigger] self.spec_previous()[i]).flat() by {
                        assert(self.spec_previous()[i] == pre.spec_previous()[i]);
                    }
                    assert forall|i: int|
                        0 <= i < self.spec_next().len() implies (
                    #[trigger] self.spec_next()[i]).flat() by {
                        if i < self.spec_next().len() - 1 {
                            assert(self.spec_next()[i] == pre.spec_next()[i]);
                        } else {
                            assert(self.spec_next()[i] == redo);
                        }
                    }
                }
                Some(operation)
            },
            None => None,
        }
    }

    /// Navigate the history forwards: the most recently reversed operation
    /// is handed to the caller (which is expected to run it), and a copy
    /// of it returns to the run log.
    pub fn next(&mut self) -> (r: Option<Operation>)
        requires
            old(self).flat(),
        ensures
            final(self).flat(),
            match r {
                Some(operation) => {
                    &&& old(self).spec_next().len() > 0
                    &&& operation == old(self).spec_next().last()
                    &&& operation.flat()
                    &&& final(self).spec_next() == old(self).spec_next().drop_last()
                    &&& final(self).prev_views() == old(self).prev_views().push(
                        op_view(operation),
                    )
                },
                None => {
                    &&& old(self).spec_next().len() == 0
                    &&& final(self).spec_previous() == old(self).spec_previous()
                    &&& final(self).spec_next() == old(self).spec_next()
                },
            },
            final(self).spec_marked() == old(self).spec_marked(),
    {
        let ghost pre = *self;
        match self.next.pop() {
            Some(operation) => {
                proof {
                    assert(operation == pre.spec_next()[pre.spec_next().len() - 1]);
                    assert(operation.flat());
                }
                // Keep a copy so that it can be reversed as an undo operation, again.
                let undo = operation.duplicate();
                self.previous.push(undo);
                proof {
                    assert(self.prev_views() =~= pre.prev_views().push(op_view(operation)));
                    assert forall|i: int|
                        0 <= i < self.spec_next().len() implies (
                    #[trigger] self.spec_next()[i]).flat() by {
                        assert(self.spec_next()[i] == pre.spec_next()[i]);
                    }
                    assert forall|i: int|
                        0 <= i < self.spec_previous().len() implies (
                    #[trigger] self.spec_previous()[i]).flat() by {
                        if i < self.spec_previous().len() - 1 {
                            assert(self.spec_previous()[i] == pre.spec_previous()[i]);
                        } else {
                            assert(self.spec_previous()[i] == undo);
                        }
                    }
                }
                Some(operation)
            },
            None => None,
        }
    }

    /// Records the current point in the history as the one matching the
    /// on-disk file.
    pub fn mark(&mut self)
        ensures
            final(self).spec_previous() == old(self).spec_previous(),
            final(self).spec_next() == old(self).spec_next(),
            final(self).spec_marked() == Some(old(self).spec_previous().len() as usize),
            old(self).flat() ==> final(self).flat(),
    {
        self.marked_position = Some(self.previous.len())
    }

    /// Whether the history currently sits at the marked position.
    pub fn at_mark(&self) -> (r: bool)
        ensures
            r == (self.spec_marked() == Some(self.spec_previous().len() as usize)),
    {
        if let Some(position) = self.marked_position {
            self.previous.len() == position
        } else {
            false
        }
    }
}

} // verus!
