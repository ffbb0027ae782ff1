//! Buffer and working directory management.

use vstd::prelude::*;
use vstd::string::StrSliceExecFns;
use vstd::utf8::{decode_utf8, encode_utf8, valid_utf8};
use crate::buffer::Buffer;
use crate::errors::Error;
use crate::syntax::{find_syntax_by_extension, find_syntax_plain_text, load_default_syntaxes};
use crate::text::{bytes_to_string, lemma_ascii_boundary};

verus! {

broadcast use vstd::utf8::encode_utf8_valid_utf8;

/// An owned collection of buffers and associated path, representing a
/// running editor environment. The workspace selects one current buffer
/// at a time, and resolves syntax definitions for its buffers.
pub struct Workspace {
    pub path: String,
    pub buffers: Vec<Buffer>,
    pub next_buffer_id: usize,
    pub current_buffer_index: Option<usize>,
    pub syntax_set: syntect::parsing::SyntaxSet,
}

/// The path `p` seen relative to the directory `base`: the remainder when
/// `p` lies directly under `base`, and nothing otherwise.
pub open spec fn relative_spec(base: Seq<u8>, p: Seq<u8>) -> Option<Seq<u8>> {
    if p.len() > base.len() + 1 && p.take(base.len() as int) == base && p[base.len() as int]
        == 47u8 {
        Some(p.skip(base.len() as int + 1))
    } else {
        None
    }
}

/// Returns the tail of `path` relative to the directory `base` when it
/// lies directly under it.
fn relative_to(base: &str, path: &str) -> (r: Option<String>)
    ensures
        match relative_spec(encode_utf8(base@), encode_utf8(path@)) {
            Some(rest) => r matches Some(text) && text@ == decode_utf8(rest),
            None => r is None,
        },
{
    let b = base.as_bytes_vec();
    let p = path.as_bytes_vec();
    let ghost bv = b@;
    let ghost pv = p@;
    if p.len() <= b.len() {
        return None;
    }
    if p.len() - b.len() <= 1 {
        return None;
    }
    if p[b.len()] != 47u8 {
        return None;
    }
    let mut i: usize = 0;
    while i < b.len()
        invariant
            0 <= i <= bv.len(),
            b@ == bv,
            p@ == pv,
            bv == encode_utf8(base@),
            pv == encode_utf8(path@),
            pv.len() > bv.len() + 1,
            forall|j: int| 0 <= j < i ==> pv[j] == bv[j],
        decreases b.len() - i,
    {
        if p[i] != b[i] {
            proof {
                assert(pv.take(bv.len() as int) != bv) by {
                    assert(pv.take(bv.len() as int)[i as int] == pv[i as int]);
                }
            }
            return None;
        }
        i = i + 1;
    }
    proof {
        assert(pv.take(bv.len() as int) =~= bv);
        lemma_ascii_boundary(pv, bv.len() as int);
        vstd::utf8::valid_utf8_split(pv, bv.len() as int + 1);
    }
    let rest = vstd::slice::slice_subrange(p.as_slice(), b.len() + 1, p.len());
    proof {
        assert(rest@ =~= pv.skip(bv.len() as int + 1));
    }
    Some(bytes_to_string(rest))
}

impl Workspace {
    /// The buffers the workspace holds, as seen by specifications.
    pub open spec fn spec_buffers(self) -> Seq<Buffer> {
        self.buffers@
    }

    /// The selected buffer's index, as seen by specifications.
    pub open spec fn spec_current_index(self) -> Option<usize> {
        self.current_buffer_index
    }

    /// The id the next added buffer receives.
    pub open spec fn spec_next_id(self) -> usize {
        self.next_buffer_id
    }

    /// The selection, when present, indexes a buffer; every buffer is
    /// well formed; every held buffer has an id, below the counter for
    /// the next one, and no two buffers share one.
    pub open spec fn wf(self) -> bool {
        &&& match self.spec_current_index() {
            Some(i) => i < self.spec_buffers().len(),
            None => true,
        }
        &&& forall|i: int|
            0 <= i < self.spec_buffers().len() ==> (#[trigger] self.spec_buffers()[i]).wf()
        &&& self.ids_assigned()
    }

    /// Every held buffer carries an id below `next_buffer_id`, and ids
    /// are pairwise distinct.
    pub open spec fn ids_assigned(self) -> bool {
        &&& forall|i: int|
            0 <= i < self.spec_buffers().len() ==> ((#[trigger] self.spec_buffers()[i]).id
                matches Some(v) && v < self.spec_next_id())
        &&& forall|i: int, j: int|
            0 <= i < j < self.spec_buffers().len() ==> (#[trigger] self.spec_buffers()[i]).id
                != (#[trigger] self.spec_buffers()[j]).id
    }

    /// Creates a new empty workspace for the specified path, loading the
    /// bundled default syntax definitions.
    pub fn new(path: String) -> (r: Workspace)
        ensures
            r.wf(),
            r.path == path,
            r.spec_buffers().len() == 0,
            r.spec_current_index() is None,
            r.spec_next_id() == 0,
    {
        Workspace {
            path,
            buffers: Vec::new(),
            next_buffer_id: 0,
            current_buffer_index: None,
            syntax_set: load_default_syntaxes(),
        }
    }

    /// Creates a new empty workspace for the specified path, around an
    /// already prepared syntax definition set (for callers that augment
    /// the bundled definitions).
    pub fn with_syntax_set(path: String, syntax_set: syntect::parsing::SyntaxSet) -> (r:
        Workspace)
        ensures
            r.wf(),
            r.path == path,
            r.spec_buffers().len() == 0,
            r.spec_current_index() is None,
            r.spec_next_id() == 0,
    {
        Workspace {
            path,
            buffers: Vec::new(),
            next_buffer_id: 0,
            current_buffer_index: None,
            syntax_set,
        }
    }

    /// A reference to the currently selected buffer, if any.
    pub fn current_buffer(&self) -> (r: Option<&Buffer>)
        requires
            self.wf(),
        ensures
            match self.spec_current_index() {
                Some(i) => r matches Some(b) && *b == self.spec_buffers()[i as int],
                None => r is None,
            },
    {
        match self.current_buffer_index {
            Some(index) => Some(&self.buffers[index]),
            None => None,
        }
    }

    /// A mutable reference to the currently selected buffer, if any.
    pub fn current_buffer_mut(&mut self) -> (r: Option<&mut Buffer>)
        requires
            old(self).wf(),
        ensures
            match old(self).spec_current_index() {
                Some(i) => {
                    &&& r matches Some(b) && *b == old(self).spec_buffers()[i as int]
                    &&& final(self).spec_buffers() == old(self).spec_buffers().update(
                        i as int,
                        *final(r.unwrap()),
                    )
                    &&& final(self).spec_current_index() == old(self).spec_current_index()
                    &&& final(self).spec_next_id() == old(self).spec_next_id()
                    &&& final(self).path == old(self).path
                    &&& final(self).syntax_set == old(self).syntax_set
                    &&& final(r.unwrap()).wf() && final(r.unwrap()).id == old(
                        self,
                    ).spec_buffers()[i as int].id ==> final(self).wf()
                },
                None => r is None && *final(self) == *old(self),
            },
    {
        match self.current_buffer_index {
            Some(index) => Some(&mut self.buffers[index]),
            None => None,
        }
    }

    /// The current buffer's index, relative to all open buffers.
    pub fn current_buffer_index(&self) -> (r: Option<usize>)
        ensures
            r == self.spec_current_index(),
    {
        self.current_buffer_index
    }

    /// Adds a buffer to the workspace, inserting it directly after the
    /// current buffer, populates its `id` field with a value unique to
    /// the workspace, and selects it. A buffer arriving without a syntax
    /// definition is assigned one by extension lookup, falling back to
    /// plain text.
    pub fn add_buffer(&mut self, buf: Buffer)
        requires
            old(self).wf(),
            buf.wf(),
            old(self).spec_next_id() < usize::MAX,
            old(self).spec_buffers().len() < usize::MAX,
        ensures
            final(self).wf(),
            ({
                let target = match old(self).spec_current_index() {
                    Some(i) => i + 1,
                    None => 0int,
                };
                &&& final(self).spec_buffers().len() == old(self).spec_buffers().len() + 1
                &&& final(self).spec_current_index() == Some(target as usize)
                &&& final(self).spec_next_id() == old(self).spec_next_id() + 1
                &&& {
                    let added = final(self).spec_buffers()[target];
                    &&& added.id == Some(old(self).spec_next_id())
                    &&& added.gap == buf.gap
                    &&& added.cursor == buf.cursor
                    &&& added.path == buf.path
                    &&& added.history == buf.history
                    &&& buf.syntax_definition is Some ==> added.syntax_definition
                        == buf.syntax_definition
                }
                &&& forall|j: int|
                    0 <= j < target ==> final(self).spec_buffers()[j]
                        == old(self).spec_buffers()[j]
                &&& forall|j: int|
                    target < j < final(self).spec_buffers().len()
                        ==> final(self).spec_buffers()[j] == old(self).spec_buffers()[j - 1]
                &&& final(self).path == old(self).path
                &&& final(self).syntax_set == old(self).syntax_set
            }),
    {
        let mut buf = buf;
        // Set a unique buffer ID, and advance the counter.
        buf.id = Some(self.next_buffer_id);
        self.next_buffer_id = self.next_buffer_id + 1;

        // The target index is directly after the current buffer's index.
        let target_index = match self.current_buffer_index {
            Some(i) => i + 1,
            None => 0,
        };

        // Insert the buffer and select it.
        self.buffers.insert(target_index, buf);
        self.current_buffer_index = Some(target_index);

        // Add a syntax definition to the buffer, if it doesn't already
        // have one.
        let needs_syntax = match &self.buffers[target_index].syntax_definition {
            Some(_) => false,
            None => true,
        };
        if needs_syntax {
            match self.lookup_syntax(target_index) {
                Some(assigned) => {
                    let slot = &mut self.buffers[target_index];
                    slot.syntax_definition = Some(assigned);
                },
                None => {
                },
            }
        }
    }

    /// The syntax definition for the buffer at the given index, looked up
    /// by its file extension and falling back to plain text. Nothing when
    /// the set holds neither (a set without a plain-text definition).
    fn lookup_syntax(&self, index: usize) -> (r: Option<syntect::parsing::SyntaxReference>)
        requires
            self.wf(),
            index < self.spec_buffers().len(),
    {
        let by_extension = match self.buffers[index].file_extension() {
            Some(extension) => find_syntax_by_extension(&self.syntax_set, extension.as_str()),
            None => None,
        };
        match by_extension {
            Some(definition) => Some(definition),
            None => find_syntax_plain_text(&self.syntax_set),
        }
    }

    /// Removes the currently selected buffer from the collection and
    /// selects the buffer before it, if any remain. If the workspace has
    /// no selection, this method does nothing.
    pub fn close_current_buffer(&mut self)
        requires
            old(self).wf(),
        ensures
            final(self).wf(),
            match old(self).spec_current_index() {
                Some(i) => {
                    &&& final(self).spec_buffers() == old(self).spec_buffers().remove(i as int)
                    &&& final(self).spec_current_index() == (if final(self).spec_buffers().len()
                        == 0 {
                        None::<usize>
                    } else if i > 0 {
                        Some((i - 1) as usize)
                    } else {
                        Some(0usize)
                    })
                },
                None => *final(self) == *old(self),
            },
            final(self).spec_next_id() == old(self).spec_next_id(),
            final(self).path == old(self).path,
            final(self).syntax_set == old(self).syntax_set,
    {
        match self.current_buffer_index {
            Some(index) => {
                self.buffers.remove(index);
                if self.buffers.len() == 0 {
                    self.current_buffer_index = None;
                } else if index > 0 {
                    self.current_buffer_index = Some(index - 1);
                } else {
                    self.current_buffer_index = Some(0);
                }
            },
            None => {
            },
        }
    }

    /// Selects the previous buffer in the workspace. If the currently
    /// selected buffer is the first in the collection, this wraps and
    /// selects the last buffer.
    pub fn previous_buffer(&mut self)
        requires
            old(self).wf(),
        ensures
            final(self).wf(),
            final(self).spec_buffers() == old(self).spec_buffers(),
            final(self).spec_next_id() == old(self).spec_next_id(),
            final(self).path == old(self).path,
            final(self).syntax_set == old(self).syntax_set,
            final(self).spec_current_index() == match old(self).spec_current_index() {
                Some(i) => if i > 0 {
                    Some((i - 1) as usize)
                } else {
                    Some((old(self).spec_buffers().len() - 1) as usize)
                },
                None => None::<usize>,
            },
    {
        match self.current_buffer_index {
            Some(index) => {
                if index > 0 {
                    self.current_buffer_index = Some(index - 1);
                } else {
                    self.current_buffer_index = Some(self.buffers.len() - 1);
                }
            },
            None => {
            },
        }
    }

    /// Selects the next buffer in the workspace. If the currently
    /// selected buffer is the last in the collection, this wraps and
    /// selects the first buffer.
    pub fn next_buffer(&mut self)
        requires
            old(self).wf(),
        ensures
            final(self).wf(),
            final(self).spec_buffers() == old(self).spec_buffers(),
            final(self).spec_next_id() == old(self).spec_next_id(),
            final(self).path == old(self).path,
            final(self).syntax_set == old(self).syntax_set,
            final(self).spec_current_index() == match old(self).spec_current_index() {
                Some(i) => if i + 1 == old(self).spec_buffers().len() {
                    Some(0usize)
                } else {
                    Some((i + 1) as usize)
                },
                None => None::<usize>,
            },
    {
        match self.current_buffer_index {
            Some(index) => {
                if index == self.buffers.len() - 1 {
                    self.current_buffer_index = Some(0);
                } else {
                    self.current_buffer_index = Some(index + 1);
                }
            },
            None => {
            },
        }
    }

    /// The current buffer's path. If the path can be represented relative
    /// to the workspace path, the relative form is returned; otherwise
    /// the path is returned as-is.
    pub fn current_buffer_path(&self) -> (r: Option<String>)
        requires
            self.wf(),
        ensures
            match self.spec_current_index() {
                Some(i) => match self.spec_buffers()[i as int].path {
                    Some(p) => {
                        &&& r is Some
                        &&& match relative_spec(encode_utf8(self.path@), encode_utf8(p@)) {
                            Some(rest) => r.unwrap()@ == decode_utf8(rest),
                            None => r.unwrap()@ == p@,
                        }
                    },
                    None => r is None,
                },
                None => r is None,
            },
    {
        match self.current_buffer_index {
            Some(index) => {
                match &self.buffers[index].path {
                    Some(buffer_path) => {
                        match relative_to(self.path.as_str(), buffer_path.as_str()) {
                            Some(relative) => Some(relative),
                            None => Some(buffer_path.clone()),
                        }
                    },
                    None => None,
                }
            },
            None => None,
        }
    }

    /// The paths of all open buffers, in order, each relative to the
    /// workspace path when possible.
    pub fn buffer_paths(&self) -> (r: Vec<Option<String>>)
        requires
            self.wf(),
        ensures
            r@.len() == self.spec_buffers().len(),
            forall|i: int|
                0 <= i < r@.len() ==> match self.spec_buffers()[i].path {
                    Some(p) => (#[trigger] r@[i]) matches Some(text) && (match relative_spec(
                        encode_utf8(self.path@),
                        encode_utf8(p@),
                    ) {
                        Some(rest) => text@ == decode_utf8(rest),
                        None => text@ == p@,
                    }),
                    None => r@[i] is None,
                },
    {
        let mut out: Vec<Option<String>> = Vec::new();
        let mut i: usize = 0;
        let len = self.buffers.len();
        while i < len
            invariant
                0 <= i <= len,
                self.wf(),
                len == self.spec_buffers().len(),
                out@.len() == i,
                forall|j: int|
                    0 <= j < i ==> match self.spec_buffers()[j].path {
                        Some(p) => (#[trigger] out@[j]) matches Some(text) && (match relative_spec(
                            encode_utf8(self.path@),
                            encode_utf8(p@),
                        ) {
                            Some(rest) => text@ == decode_utf8(rest),
                            None => text@ == p@,
                        }),
                        None => out@[j] is None,
                    },
            decreases len - i,
        {
            let entry = match &self.buffers[i].path {
                Some(buffer_path) => {
                    match relative_to(self.path.as_str(), buffer_path.as_str()) {
                        Some(relative) => Some(relative),
                        None => Some(buffer_path.clone()),
                    }
                },
                None => None,
            };
            out.push(entry);
            i = i + 1;
        }
        out
    }

    /// Updates the current buffer's syntax definition by re-running the
    /// extension lookup, falling back to plain text.
    pub fn update_current_syntax(&mut self) -> (r: Result<(), Error>)
        requires
            old(self).wf(),
        ensures
            final(self).wf(),
            match old(self).spec_current_index() {
                Some(i) => {
                    &&& r is Ok
                    &&& final(self).spec_buffers().len() == old(self).spec_buffers().len()
                    &&& forall|j: int|
                        0 <= j < old(self).spec_buffers().len() && j != i
                            ==> final(self).spec_buffers()[j] == old(self).spec_buffers()[j]
                    &&& final(self).spec_buffers()[i as int] == Buffer {
                        syntax_definition: final(self).spec_buffers()[i as int].syntax_definition,
                        ..old(self).spec_buffers()[i as int]
                    }
                    &&& final(self).spec_current_index() == old(self).spec_current_index()
                },
                None => r == Result::<(), Error>::Err(Error::EmptyWorkspace) && *final(self)
                    == *old(self),
            },
            final(self).spec_next_id() == old(self).spec_next_id(),
            final(self).path == old(self).path,
            final(self).syntax_set == old(self).syntax_set,
    {
        match self.current_buffer_index {
            Some(index) => {
                match self.lookup_syntax(index) {
                    Some(definition) => {
                        let slot = &mut self.buffers[index];
                        slot.syntax_definition = Some(definition);
                    },
                    None => {
                    },
                }
                Ok(())
            },
            None => Err(Error::EmptyWorkspace),
        }
    }

    /// A tokenizer over the current buffer's contents, using its syntax
    /// definition against the workspace's syntax set. The returned set
    /// holds exactly the buffer's text.
    pub fn current_buffer_tokens(&self) -> (r: Result<crate::token::TokenSet<'_>, Error>)
        requires
            self.wf(),
        ensures
            match self.spec_current_index() {
                Some(i) => match self.spec_buffers()[i as int].syntax_definition {
                    Some(_) => r matches Ok(tokens) && tokens.spec_data()@ == decode_utf8(
                        self.spec_buffers()[i as int].gap.content(),
                    ),
                    None => r == Result::<crate::token::TokenSet<'_>, Error>::Err(
                        Error::MissingSyntax,
                    ),
                },
                None => r == Result::<crate::token::TokenSet<'_>, Error>::Err(
                    Error::EmptyWorkspace,
                ),
            },
    {
        match self.current_buffer_index {
            Some(index) => {
                let buf = &self.buffers[index];
                let data = buf.data();
                match &buf.syntax_definition {
                    Some(definition) => Ok(
                        crate::token::TokenSet::new(data, definition, &self.syntax_set),
                    ),
                    None => Err(Error::MissingSyntax),
                }
            },
            None => Err(Error::EmptyWorkspace),
        }
    }

    /// Selects the already open buffer with the given path, if one
    /// exists. The current buffer is checked first, then the others in
    /// order.
    pub fn select_buffer_by_path(&mut self, path: &str) -> (r: bool)
        requires
            old(self).wf(),
        ensures
            final(self).wf(),
            final(self).spec_buffers() == old(self).spec_buffers(),
            final(self).spec_next_id() == old(self).spec_next_id(),
            final(self).path == old(self).path,
            final(self).syntax_set == old(self).syntax_set,
            r ==> (final(self).spec_current_index() matches Some(i)
                && (final(self).spec_buffers()[i as int].path matches Some(p) && p@ == path@)),
            !r ==> *final(self) == *old(self),
    {
        // Do nothing if the current buffer already matches the path.
        match self.current_buffer_index {
            Some(index) => {
                match &self.buffers[index].path {
                    Some(current_path) => {
                        if string_eq_str(current_path, path) {
                            return true;
                        }
                    },
                    None => {
                    },
                }
            },
            None => {
            },
        }

        // Look at the other open buffers to see if one matches.
        let mut i: usize = 0;
        let len = self.buffers.len();
        while i < len
            invariant
                0 <= i <= len,
                old(self).wf(),
                *self == *old(self),
                len == self.spec_buffers().len(),
            decreases len - i,
        {
            let found = match &self.buffers[i].path {
                Some(candidate) => string_eq_str(candidate, path),
                None => false,
            };
            if found {
                self.current_buffer_index = Some(i);
                return true;
            }
            i = i + 1;
        }
        false
    }
}

/// Whether a string equals a string slice, by their characters.
fn string_eq_str(a: &String, b: &str) -> (r: bool)
    ensures
        r == (a@ == b@),
{
    let av = a.as_str().as_bytes_vec();
    let bv = b.as_bytes_vec();
    let r = av == bv;
    proof {
        if av@ =~= bv@ {
            broadcast use vstd::utf8::encode_utf8_decode_utf8;

            assert(decode_utf8(encode_utf8(a@)) == decode_utf8(encode_utf8(b@)));
        } else {
            if a@ == b@ {
                assert(av@ =~= bv@);
            }
        }
    }
    r
}

} // verus!
