//! The buffer type's underlying data structure.

use vstd::prelude::*;
use vstd::utf8::{decode_utf8, encode_utf8, valid_utf8};
use crate::position::{pos_le, Position};
use crate::range::Range;
use crate::text::{
    cluster_offset, clusters, grapheme_clusters, bytes_to_string, lemma_cluster_offset_mono,
    lemma_flatten_all_valid, lemma_flatten_slice, lemma_flatten_take_valid, lemma_prefix_within,
    lemma_suffix_within, lemma_take_flatten_le, views, walk_clusters,
};

verus! {

broadcast use vstd::utf8::encode_utf8_valid_utf8, vstd::utf8::valid_utf8_concat;

/// A UTF-8 string buffer designed to minimize reallocations,
/// maintaining performance amid frequent modifications.
///
/// The byte storage is split into three regions: the live bytes before the
/// gap, the gap itself (whose bytes carry no meaning), and the live bytes
/// after the gap. The live bytes on either side of the gap are always
/// valid UTF-8.
pub struct GapBuffer {
    data: Vec<u8>,
    gap_start: usize,
    gap_length: usize,
}

impl GapBuffer {
    /// The single contiguous gap lies within the byte storage, and the live
    /// bytes on each side of it are valid UTF-8.
    pub open spec fn wf(self) -> bool {
        &&& self.spec_gap_start() + self.spec_gap_length() <= self.spec_data_len()
        &&& valid_utf8(self.before())
        &&& valid_utf8(self.after())
    }

    /// The live bytes before the gap.
    pub closed spec fn before(self) -> Seq<u8> {
        self.data@.take(self.gap_start as int)
    }

    /// The live bytes after the gap.
    pub closed spec fn after(self) -> Seq<u8> {
        self.data@.skip(self.gap_start + self.gap_length)
    }

    /// The buffer's live content: the bytes on both sides of the gap.
    pub open spec fn content(self) -> Seq<u8> {
        self.before() + self.after()
    }

    /// The grapheme clusters that positions walk over: those of the live
    /// bytes before the gap followed by those of the live bytes after it.
    pub open spec fn gb_clusters(self) -> Seq<Seq<u8>> {
        clusters(self.before()) + clusters(self.after())
    }

    /// The byte offset within the content addressed by `position`, if the
    /// position is in bounds.
    pub open spec fn resolve(self, position: Position) -> Option<int> {
        cluster_offset(self.gb_clusters(), position.line as int, position.offset as int)
    }

    /// Where the gap begins in the byte storage.
    pub closed spec fn spec_gap_start(self) -> int {
        self.gap_start as int
    }

    /// The size of the gap in bytes.
    pub closed spec fn spec_gap_length(self) -> int {
        self.gap_length as int
    }

    /// The size of the byte storage.
    pub closed spec fn spec_data_len(self) -> int {
        self.data@.len() as int
    }

    /// The size of the gap in bytes. Deleted content widens the gap rather
    /// than shrinking the storage.
    pub fn gap_length(&self) -> (r: usize)
        ensures
            r == self.spec_gap_length(),
    {
        self.gap_length
    }

    /// Initializes a gap buffer with the specified data as its contents.
    pub fn new(data: String) -> (r: GapBuffer)
        ensures
            r.wf(),
            r.content() == encode_utf8(data@),
            r.before() == encode_utf8(data@),
            r.after() == Seq::<u8>::empty(),
            r.spec_gap_length() == 0,
    {
        let bytes = data.as_str().as_bytes_vec();
        let gap_start = bytes.len();
        let r = GapBuffer { data: bytes, gap_start, gap_length: 0 };
        proof {
            assert(r.before() =~= encode_utf8(data@));
            assert(r.after() =~= Seq::<u8>::empty());
            assert(valid_utf8(r.after()));
            assert(r.content() =~= encode_utf8(data@));
        }
        r
    }

    /// Copies the byte range `[from, to)` of the content into a fresh
    /// vector.
    fn copy_content_range(&self, from: usize, to: usize) -> (r: Vec<u8>)
        requires
            self.wf(),
            from <= to <= self.content().len(),
        ensures
            r@ == self.content().subrange(from as int, to as int),
    {
        let n = self.data.len();
        proof {
            assert(self.before().len() == self.spec_gap_start());
            assert(self.content().len() + self.spec_gap_length() == n);
        }
        let mut out: Vec<u8> = Vec::new();
        let mut k: usize = from;
        while k < to
            invariant
                self.wf(),
                n == self.spec_data_len(),
                self.content().len() + self.spec_gap_length() == n,
                from <= k <= to <= self.content().len(),
                out@ == self.content().subrange(from as int, k as int),
            decreases to - k,
        {
            let idx = if k < self.gap_start {
                k
            } else {
                k + self.gap_length
            };
            proof {
                assert(self.content()[k as int] == self.data@[idx as int]);
            }
            let b = self.data[idx];
            out.push(b);
            proof {
                assert(out@ =~= self.content().subrange(from as int, k + 1));
            }
            k = k + 1;
        }
        out
    }

    /// The grapheme clusters of the two live halves, materialized.
    fn segmentation(&self) -> (r: Vec<Vec<u8>>)
        requires
            self.wf(),
        ensures
            views(r@) == self.gb_clusters(),
            views(r@).flatten() == self.content(),
            clusters(self.before()).flatten() == self.before(),
            clusters(self.after()).flatten() == self.after(),
            forall|i: int| 0 <= i < r@.len() ==> (#[trigger] r@[i])@.len() > 0,
            forall|i: int| 0 <= i < r@.len() ==> valid_utf8((#[trigger] r@[i])@),
    {
        let n = self.data.len();
        let first = vstd::slice::slice_subrange(self.data.as_slice(), 0, self.gap_start);
        let second = vstd::slice::slice_subrange(
            self.data.as_slice(),
            self.gap_start + self.gap_length,
            n,
        );
        proof {
            assert(first@ =~= self.before());
            assert(second@ =~= self.after());
        }
        let mut r = grapheme_clusters(first);
        let mut tail = grapheme_clusters(second);
        let ghost r1 = r@;
        let ghost r2 = tail@;
        r.append(&mut tail);
        proof {
            assert(views(r@) =~= views(r1) + views(r2));
            vstd::seq_lib::lemma_flatten_concat(views(r1), views(r2));
        }
        r
    }

    /// The content-byte offset that a byte-storage offset stands for.
    pub open spec fn dest_content(self, offset: int) -> int {
        if offset <= self.spec_gap_start() {
            offset
        } else {
            offset - self.spec_gap_length()
        }
    }

    /// Whether a byte-storage offset is a place the gap can move to: it is
    /// outside the gap, and splits the live half it falls into between two
    /// characters.
    pub open spec fn is_gap_destination(self, offset: int) -> bool {
        if offset <= self.spec_gap_start() {
            &&& 0 <= offset
            &&& valid_utf8(self.before().take(offset))
            &&& valid_utf8(self.before().skip(offset))
        } else {
            &&& offset >= self.spec_gap_start() + self.spec_gap_length()
            &&& offset <= self.spec_data_len()
            &&& valid_utf8(
                self.after().take(offset - self.spec_gap_start() - self.spec_gap_length()),
            )
            &&& valid_utf8(
                self.after().skip(offset - self.spec_gap_start() - self.spec_gap_length()),
            )
        }
    }

    /// Resolves a position to its content-byte offset, along with the facts
    /// the mutating operations need: the offset splits the content, and the
    /// live half it falls into, between two characters.
    fn locate(&self, position: &Position) -> (r: Option<usize>)
        requires
            self.wf(),
        ensures
            match r {
                Some(c) => {
                    &&& self.resolve(*position) == Some(c as int)
                    &&& c <= self.content().len()
                    &&& valid_utf8(self.content().take(c as int))
                    &&& valid_utf8(self.content().skip(c as int))
                    &&& c <= self.before().len() ==> valid_utf8(self.before().take(c as int))
                        && valid_utf8(self.before().skip(c as int))
                    &&& c >= self.before().len() ==> valid_utf8(
                        self.after().take(c - self.before().len()),
                    ) && valid_utf8(self.after().skip(c - self.before().len()))
                },
                None => self.resolve(*position) is None,
            },
    {
        let n = self.data.len();
        let gs = self.segmentation();
        proof {
            assert(self.content().len() + self.spec_gap_length() == n);
            assert(views(gs@).flatten().len() <= usize::MAX);
        }
        match walk_clusters(&gs, position.line, position.offset) {
            Some((c, i)) => {
                proof {
                    let gsv = views(gs@);
                    let bc = clusters(self.before());
                    let ac = clusters(self.after());
                    assert(forall|k: int| 0 <= k < bc.len() ==> (#[trigger] bc[k]).len() > 0
                        && valid_utf8(bc[k])) by {
                        assert(forall|k: int|
                            0 <= k < bc.len() ==> #[trigger] bc[k] == views(gs@)[k]);
                    }
                    assert(forall|k: int| 0 <= k < ac.len() ==> (#[trigger] ac[k]).len() > 0
                        && valid_utf8(ac[k])) by {
                        assert(forall|k: int|
                            0 <= k < ac.len() ==> #[trigger] ac[k] == views(gs@)[bc.len() + k]);
                    }
                    assert(gsv.take(gsv.len() as int) =~= gsv);
                    lemma_take_flatten_le(gsv, i@, gsv.len() as int);
                    lemma_flatten_take_valid(gsv, i@);
                    assert(gsv =~= gsv.take(i@) + gsv.skip(i@));
                    vstd::seq_lib::lemma_flatten_concat(gsv.take(i@), gsv.skip(i@));
                    assert(self.content().take(c as int) =~= gsv.take(i@).flatten());
                    assert(self.content().skip(c as int) =~= gsv.skip(i@).flatten());
                    if c <= self.before().len() {
                        lemma_prefix_within(bc, ac, i@);
                        assert(self.before().take(c as int) =~= bc.take(i@).flatten());
                        lemma_flatten_take_valid(bc, i@);
                        assert(self.before().skip(c as int) =~= bc.skip(i@).flatten()) by {
                            lemma_flatten_slice(bc, i@, bc.len() as int);
                            assert(bc =~= bc.take(i@) + bc.skip(i@));
                            vstd::seq_lib::lemma_flatten_concat(bc.take(i@), bc.skip(i@));
                            assert(bc.take(bc.len() as int) =~= bc);
                        }
                    }
                    if c >= self.before().len() {
                        lemma_suffix_within(bc, ac, i@);
                        let j = i@ - bc.len();
                        lemma_flatten_take_valid(ac, j);
                        assert(ac =~= ac.take(j) + ac.skip(j));
                        vstd::seq_lib::lemma_flatten_concat(ac.take(j), ac.skip(j));
                        assert(self.after().take(c - self.before().len()) =~= ac.take(
                            j,
                        ).flatten());
                        assert(self.after().skip(c - self.before().len()) =~= ac.skip(
                            j,
                        ).flatten());
                    }
                }
                Some(c)
            },
            None => None,
        }
    }

    /// Moves the gap so that it begins at the given byte-storage offset,
    /// shifting the live bytes it passes over to the other side. The
    /// content is unchanged; only the split into the two halves moves.
    pub fn move_gap(&mut self, offset: usize)
        requires
            old(self).wf(),
            old(self).is_gap_destination(offset as int),
        ensures
            final(self).wf(),
            final(self).content() == old(self).content(),
            final(self).spec_data_len() == old(self).spec_data_len(),
            final(self).spec_gap_length() == old(self).spec_gap_length(),
            final(self).spec_gap_start() == old(self).dest_content(offset as int),
            final(self).before() == old(self).content().take(
                old(self).dest_content(offset as int),
            ),
            final(self).after() == old(self).content().skip(old(self).dest_content(offset as int)),
    {
        let ghost c = old(self).dest_content(offset as int);
        let ghost d0 = old(self).data@;
        let n = self.data.len();
        let gs0 = self.gap_start;
        let gl = self.gap_length;
        proof {
            assert(old(self).before().len() == gs0);
            assert(old(self).content().len() + gl == n);
        }
        if gl == 0 {
            self.gap_start = offset;
            proof {
                assert(old(self).content() =~= d0);
                assert(self.before() =~= old(self).content().take(c));
                assert(self.after() =~= old(self).content().skip(c));
                if offset <= gs0 {
                    assert(self.before() =~= old(self).before().take(offset as int));
                    assert(self.after() =~= old(self).before().skip(offset as int)
                        + old(self).after());
                } else {
                    assert(self.before() =~= old(self).before() + old(self).after().take(
                        offset - gs0,
                    ));
                    assert(self.after() =~= old(self).after().skip(offset - gs0));
                }
            }
            return ;
        }
        if offset < self.gap_start {
            // Shift the gap to the left one byte at a time, walking the
            // vacated region right to left so that no byte is overwritten
            // before it has been copied.
            let mut idx = self.gap_start;
            while idx > offset
                invariant
                    offset <= idx <= gs0,
                    gs0 + gl <= n,
                    0 < gl,
                    self.gap_start == gs0,
                    self.gap_length == gl,
                    self.data@.len() == n == d0.len(),
                    forall|k: int| 0 <= k < idx ==> self.data@[k] == d0[k],
                    forall|k: int| idx + gl <= k < gs0 + gl ==> self.data@[k] == d0[k - gl],
                    forall|k: int| gs0 + gl <= k < n ==> self.data@[k] == d0[k],
                decreases idx - offset,
            {
                idx = idx - 1;
                let b = self.data[idx];
                self.data[idx + gl] = b;
                self.data[idx] = 0;
            }
            self.gap_start = offset;
            proof {
                assert(self.before() =~= old(self).before().take(offset as int));
                assert(self.after() =~= old(self).before().skip(offset as int)
                    + old(self).after());
                assert(self.before() =~= old(self).content().take(c));
                assert(self.after() =~= old(self).content().skip(c));
            }
        } else if offset > self.gap_start {
            // Shift the gap to the right one byte at a time.
            let mut idx = self.gap_start + self.gap_length;
            while idx < offset
                invariant
                    gs0 + gl <= idx <= offset <= n,
                    0 < gl,
                    self.gap_start == gs0,
                    self.gap_length == gl,
                    self.data@.len() == n == d0.len(),
                    forall|k: int| 0 <= k < gs0 ==> self.data@[k] == d0[k],
                    forall|k: int| gs0 <= k < idx - gl ==> self.data@[k] == d0[k + gl],
                    forall|k: int| idx <= k < n ==> self.data@[k] == d0[k],
                decreases offset - idx,
            {
                let b = self.data[idx];
                self.data[idx - gl] = b;
                self.data[idx] = 0;
                idx = idx + 1;
            }
            self.gap_start = offset - gl;
            proof {
                assert(self.before() =~= old(self).before() + old(self).after().take(
                    offset - gl - gs0,
                ));
                assert(self.after() =~= old(self).after().skip(offset - gl - gs0));
                assert(self.before() =~= old(self).content().take(c));
                assert(self.after() =~= old(self).content().skip(c));
            }
        } else {
            proof {
                assert(self.before() =~= old(self).content().take(c));
                assert(self.after() =~= old(self).content().skip(c));
            }
        }
    }

    /// Copies the given bytes into the start of the gap, advancing the gap
    /// past them so that they become the tail of the live bytes before it.
    fn write_to_gap(&mut self, data: &[u8])
        requires
            old(self).wf(),
            data@.len() <= old(self).spec_gap_length(),
            valid_utf8(data@),
        ensures
            final(self).wf(),
            final(self).before() == old(self).before() + data@,
            final(self).after() == old(self).after(),
            final(self).spec_data_len() == old(self).spec_data_len(),
            final(self).spec_gap_length() == old(self).spec_gap_length() - data@.len(),
    {
        let ghost d0 = old(self).data@;
        let ghost gs0 = old(self).gap_start as int;
        let ghost gl = old(self).gap_length as int;
        let n = self.data.len();
        let mut k: usize = 0;
        let len = data.len();
        while k < len
            invariant
                0 <= k <= len,
                0 <= gs0,
                len == data@.len(),
                len <= gl,
                gs0 + gl <= n,
                self.gap_start == gs0 + k,
                self.gap_length == gl - k,
                self.data@.len() == n == d0.len(),
                forall|j: int| 0 <= j < gs0 ==> self.data@[j] == d0[j],
                forall|j: int| gs0 <= j < gs0 + k ==> self.data@[j] == data@[j - gs0],
                forall|j: int| gs0 + gl <= j < n ==> self.data@[j] == d0[j],
            decreases len - k,
        {
            let ghost dpre = self.data@;
            let b = *vstd::slice::slice_index_get(data, k);
            let at = self.gap_start;
            self.data[at] = b;
            self.gap_start = self.gap_start + 1;
            self.gap_length = self.gap_length - 1;
            proof {
                assert(self.data@ =~= dpre.update(gs0 + k, b));
                assert forall|j: int| gs0 <= j < gs0 + k + 1 implies self.data@[j] == data@[j
                    - gs0] by {
                    if j < gs0 + k {
                        assert(self.data@[j] == dpre[j]);
                    }
                }
            }
            k = k + 1;
        }
        proof {
            assert(self.before() =~= old(self).before() + data@);
            assert(self.after() =~= old(self).after());
        }
    }

    /// The basis against which `insert` resolves its position: when the
    /// text does not fit the gap, the buffer is about to grow and the gap
    /// moves to the end first, so positions walk the segmentation of the
    /// whole content; otherwise they walk the two live halves.
    pub open spec fn insert_basis(self, b: Seq<u8>) -> Seq<Seq<u8>> {
        if b.len() > self.spec_gap_length() {
            clusters(self.content())
        } else {
            self.gb_clusters()
        }
    }

    /// How `insert` transforms the buffer: inserting the bytes `b` at
    /// `position` takes `g1` to `g2`. On an out-of-bounds position the
    /// content is unchanged, though growth may still have moved the gap to
    /// the end.
    pub open spec fn insert_step(g1: GapBuffer, g2: GapBuffer, b: Seq<u8>, position: Position) -> bool {
        if g1.content().len() + b.len() > usize::MAX {
            g2 == g1
        } else {
            GapBuffer::insert_fit_step(g1, g2, b, position)
        }
    }

    /// The `insert` transformation for text that fits the address space.
    pub open spec fn insert_fit_step(
        g1: GapBuffer,
        g2: GapBuffer,
        b: Seq<u8>,
        position: Position,
    ) -> bool {
        let grow = b.len() > g1.spec_gap_length();
        match cluster_offset(
            g1.insert_basis(b),
            position.line as int,
            position.offset as int,
        ) {
            Some(c) => {
                &&& g2.before() == g1.content().take(c) + b
                &&& g2.after() == g1.content().skip(c)
                &&& g2.content() == g1.content().take(c) + b + g1.content().skip(c)
                &&& g2.spec_gap_length() == (if grow {
                    b.len() as int
                } else {
                    g1.spec_gap_length()
                }) - b.len()
            },
            None => if grow {
                &&& g2.before() == g1.content()
                &&& g2.after() == Seq::<u8>::empty()
                &&& g2.content() == g1.content()
                &&& g2.spec_gap_length() == b.len()
            } else {
                g2 == g1
            },
        }
    }

    /// Inserts the specified data into the buffer at the specified
    /// position. The buffer will grow if there is insufficient space in the
    /// gap; growth first moves the gap to the end of the storage so that
    /// the gap always remains a single segment. If the position is out of
    /// bounds, the buffer contents remain unchanged.
    pub fn insert(&mut self, data: &str, position: &Position)
        requires
            old(self).wf(),
        ensures
            final(self).wf(),
            clusters(Seq::<u8>::empty()) == Seq::<Seq<u8>>::empty(),
            GapBuffer::insert_step(*old(self), *final(self), encode_utf8(data@), *position),
    {
        let ghost c0 = old(self).content();
        let ghost b = encode_utf8(data@);
        let bytes = data.as_bytes_vec();
        let probe: Vec<u8> = Vec::new();
        let pg = grapheme_clusters(probe.as_slice());
        proof {
            if views(pg@).len() > 0 {
                crate::text::lemma_take_flatten_lt(views(pg@), 0, 1);
                assert(views(pg@).take(0).flatten() =~= Seq::<u8>::empty());
                lemma_take_flatten_le(views(pg@), 1, views(pg@).len() as int);
                assert(views(pg@).take(views(pg@).len() as int) =~= views(pg@));
                assert(false);
            }
            assert(views(pg@) =~= Seq::<Seq<u8>>::empty());
            assert(clusters(Seq::<u8>::empty()) == Seq::<Seq<u8>>::empty());
        }
        let n0 = self.data.len();
        proof {
            assert(self.content().len() + self.spec_gap_length() == n0);
        }
        if bytes.len() > usize::MAX - (n0 - self.gap_length) {
            // The combined text would not fit the address space; leave the
            // buffer unchanged.
            return ;
        }
        let ghost grow = b.len() > old(self).spec_gap_length();
        if bytes.len() > self.gap_length {
            // Move the gap to the end of the storage before growing, so
            // that the new space only ever extends the existing gap.
            let n = self.data.len();
            proof {
                assert(valid_utf8(Seq::<u8>::empty()));
                if n <= self.spec_gap_start() {
                    assert(self.before().take(n as int) =~= self.before());
                    assert(self.before().skip(n as int) =~= Seq::<u8>::empty());
                } else {
                    let o2 = n - self.spec_gap_start() - self.spec_gap_length();
                    assert(self.after().take(o2) =~= self.after());
                    assert(self.after().skip(o2) =~= Seq::<u8>::empty());
                }
            }
            self.move_gap(n);
            proof {
                assert(old(self).dest_content(n as int) == c0.len());
                assert(c0.take(c0.len() as int) =~= c0);
                assert(c0.skip(c0.len() as int) =~= Seq::<u8>::empty());
                assert(self.before() == c0);
                assert(self.after() == Seq::<u8>::empty());
            }
            let need = bytes.len() - self.gap_length;
            let ghost dlen = self.data@.len();
            let gs_now = self.gap_start;
            proof {
                assert(forall|t: int| 0 <= t < gs_now ==> self.data@[t] == c0[t]) by {
                    assert(forall|t: int|
                        0 <= t < gs_now ==> self.data@[t] == #[trigger] self.before()[t]);
                }
            }
            let mut j: usize = 0;
            while j < need
                invariant
                    0 <= j <= need,
                    self.gap_start == gs_now,
                    gs_now == c0.len(),
                    dlen + need <= usize::MAX,
                    self.data@.len() == dlen + j,
                    gs_now <= dlen,
                    forall|t: int| 0 <= t < gs_now ==> self.data@[t] == c0[t],
                decreases need - j,
            {
                self.data.push(0);
                j = j + 1;
            }
            proof {
                assert(self.data@.take(gs_now as int) =~= c0);
            }
            let n2 = self.data.len();
            self.gap_length = n2 - gs_now;
            proof {
                assert(self.before() =~= c0);
                assert(self.after() =~= Seq::<u8>::empty());
                assert(valid_utf8(self.after()));
            }
        }
        proof {
            if grow {
                assert(clusters(self.after()) == Seq::<Seq<u8>>::empty());
                assert(self.gb_clusters() =~= clusters(c0));
            } else {
                assert(*self == *old(self));
            }
            assert(self.content().len() + self.spec_gap_length() == self.spec_data_len());
        }
        let ghost basis = if grow {
            clusters(c0)
        } else {
            old(self).gb_clusters()
        };
        let ghost mid = *self;
        match self.locate(position) {
            None => {
                proof {
                    if grow {
                        assert(self.content() =~= c0);
                    }
                }
            },
            Some(c) => {
                let n3 = self.data.len();
                proof {
                    assert(c <= self.content().len());
                    assert(self.content().len() + self.spec_gap_length() == n3);
                }
                let d = if c < self.gap_start {
                    c
                } else {
                    c + self.gap_length
                };
                proof {
                    assert(mid.before().len() == mid.spec_gap_start());
                }
                self.move_gap(d);
                proof {
                    assert(mid.dest_content(d as int) == c);
                    assert(self.content() =~= c0) by {
                        assert(mid.content() =~= c0);
                    }
                    assert(self.before() == mid.content().take(c as int));
                    assert(self.after() == mid.content().skip(c as int));
                    assert(self.spec_gap_length() == mid.spec_gap_length());
                    assert(bytes@.len() <= self.spec_gap_length());
                }
                self.write_to_gap(bytes.as_slice());
                proof {
                    assert(mid.content().take(c as int) =~= c0.take(c as int));
                    assert(mid.content().skip(c as int) =~= c0.skip(c as int));
                    assert(final(self).content() =~= c0.take(c as int) + b + c0.skip(c as int));
                }
            },
        }
    }

    /// Returns a string representation of the buffer data (without gap).
    pub fn to_string(&self) -> (r: String)
        requires
            self.wf(),
        ensures
            r@ == decode_utf8(self.content()),
            encode_utf8(r@) == self.content(),
    {
        let n = self.data.len();
        proof {
            assert(self.content().len() + self.spec_gap_length() == n);
        }
        let bytes = self.copy_content_range(0, n - self.gap_length);
        proof {
            assert(self.content().subrange(0, self.content().len() as int) =~= self.content());
        }
        bytes_to_string(bytes.as_slice())
    }

    /// The bytes a read over `range` returns: those between the two
    /// resolved boundaries. Nothing when either position is out of bounds,
    /// or when the resolved boundaries are out of order (which cannot
    /// happen for an ordered range).
    pub open spec fn read_result(self, range: Range) -> Option<Seq<u8>> {
        match (self.resolve(range.start), self.resolve(range.end)) {
            (Some(s), Some(e)) => if s <= e {
                Some(self.content().subrange(s, e))
            } else {
                None
            },
            _ => None,
        }
    }

    /// Returns the specified range of data from the buffer: the characters
    /// between the boundaries its two positions address. If either position
    /// is out of bounds, nothing is returned.
    pub fn read(&self, range: &Range) -> (r: Option<String>)
        requires
            self.wf(),
        ensures
            r is Some <==> self.read_result(*range) is Some,
            r matches Some(text) ==> text@ == decode_utf8(self.read_result(*range).unwrap())
                && encode_utf8(text@) == self.read_result(*range).unwrap(),
            pos_le(range.start, range.end) && self.resolve(range.start) is Some && self.resolve(
                range.end,
            ) is Some ==> self.resolve(range.start).unwrap() <= self.resolve(range.end).unwrap(),
    {
        let n = self.data.len();
        let gs = self.segmentation();
        proof {
            assert(self.content().len() + self.spec_gap_length() == n);
            assert(views(gs@).flatten().len() <= usize::MAX);
        }
        let start = walk_clusters(&gs, range.start.line, range.start.offset);
        let end = walk_clusters(&gs, range.end.line, range.end.offset);
        match (start, end) {
            (Some((cs, gi)), Some((ce, gj))) => {
                let ghost gsv = views(gs@);
                proof {
                    if pos_le(range.start, range.end) {
                        lemma_cluster_offset_mono(
                            gsv,
                            range.start.line as int,
                            range.start.offset as int,
                            range.end.line as int,
                            range.end.offset as int,
                        );
                    }
                }
                if cs > ce {
                    return None;
                }
                proof {
                    if gj@ < gi@ {
                        crate::text::lemma_take_flatten_lt(gsv, gj@, gi@);
                        assert(false);
                    }
                    lemma_flatten_slice(gsv, gi@, gj@);
                    assert(gsv.take(gsv.len() as int) =~= gsv);
                    lemma_take_flatten_le(gsv, gj@, gsv.len() as int);
                    assert(forall|k: int|
                        0 <= k < gsv.subrange(gi@, gj@).len() ==> valid_utf8(
                            #[trigger] gsv.subrange(gi@, gj@)[k],
                        ));
                    lemma_flatten_all_valid(gsv.subrange(gi@, gj@));
                }
                let bytes = self.copy_content_range(cs, ce);
                Some(bytes_to_string(bytes.as_slice()))
            },
            _ => None,
        }
    }

    /// The content-byte offset at which a deletion over `range` ends, once
    /// the gap has been moved to the start offset `s`. The end position is
    /// resolved against the moved halves; when it is out of bounds, the
    /// start of the line after it is tried, and failing that the deletion
    /// runs to the end of the buffer.
    pub open spec fn delete_end(self, range: Range, s: int) -> int {
        let mid = clusters(self.content().take(s)) + clusters(self.content().skip(s));
        match cluster_offset(mid, range.end.line as int, range.end.offset as int) {
            Some(e) => if e >= s {
                e
            } else {
                s
            },
            None => if range.end.line == usize::MAX {
                self.content().len() as int
            } else {
                match cluster_offset(mid, range.end.line + 1, 0) {
                    Some(e2) => if e2 >= s {
                        e2
                    } else {
                        s
                    },
                    None => self.content().len() as int,
                }
            },
        }
    }

    /// How `delete` transforms the buffer: deleting `range` takes `g1` to
    /// `g2`. On an out-of-bounds start the buffer is unchanged; otherwise
    /// the bytes between the resolved start and the resolved end of the
    /// deletion are swallowed by the gap.
    pub open spec fn delete_step(g1: GapBuffer, g2: GapBuffer, range: Range) -> bool {
        match g1.resolve(range.start) {
            None => g2 == g1,
            Some(s) => {
                let e = g1.delete_end(range, s);
                &&& s <= e <= g1.content().len()
                &&& g2.before() == g1.content().take(s)
                &&& g2.after() == g1.content().skip(e)
                &&& g2.content() == g1.content().take(s) + g1.content().skip(e)
                &&& g2.spec_gap_start() == s
                &&& g2.spec_gap_length() == g1.spec_gap_length() + (e - s)
                &&& g2.spec_data_len() == g1.spec_data_len()
            },
        }
    }

    /// Removes the specified range of data from the buffer by widening the
    /// gap over it. If the range's start is out of bounds, the buffer is
    /// unchanged; an out-of-bounds end deletes to the start of the next
    /// line, or to the end of the buffer when there is none.
    #[verifier::rlimit(60)]
    pub fn delete(&mut self, range: &Range)
        requires
            old(self).wf(),
        ensures
            final(self).wf(),
            GapBuffer::delete_step(*old(self), *final(self), *range),
    {
        let ghost c0 = old(self).content();
        match self.locate(&range.start) {
            None => {
            },
            Some(s) => {
                let n = self.data.len();
                proof {
                    assert(s <= self.content().len());
                    assert(self.content().len() + self.spec_gap_length() == n);
                    assert(self.before().len() == self.spec_gap_start());
                }
                let d = if s < self.gap_start {
                    s
                } else {
                    s + self.gap_length
                };
                self.move_gap(d);
                let ghost midst = *self;
                proof {
                    assert(old(self).dest_content(d as int) == s);
                    assert(midst.content() =~= c0);
                    assert(midst.before() == c0.take(s as int));
                    assert(midst.after() == c0.skip(s as int));
                    assert(midst.spec_gap_start() == s);
                    assert(midst.before().len() == s);
                }
                let e = match self.locate(&range.end) {
                    Some(e) => e,
                    None => {
                        if range.end.line == usize::MAX {
                            proof {
                                assert(c0.skip(c0.len() as int) =~= Seq::<u8>::empty());
                                assert(valid_utf8(Seq::<u8>::empty()));
                            }
                            n - self.gap_length
                        } else {
                            let next_line = Position { line: range.end.line + 1, offset: 0 };
                            match self.locate(&next_line) {
                                Some(e2) => e2,
                                None => {
                                    proof {
                                        assert(c0.skip(c0.len() as int) =~= Seq::<u8>::empty());
                                        assert(valid_utf8(Seq::<u8>::empty()));
                                    }
                                    n - self.gap_length
                                },
                            }
                        }
                    },
                };
                proof {
                    assert(e <= midst.content().len());
                    assert(midst.content().len() + midst.spec_gap_length() == n);
                }
                if e > self.gap_start {
                    // Widen the gap to cover the deleted contents.
                    let widen = e - self.gap_start;
                    self.gap_length = self.gap_length + widen;
                    proof {
                        assert(self.before() =~= midst.before());
                        assert(self.after() =~= midst.after().skip(e - s));
                        assert(self.after() =~= c0.skip(e as int));
                    }
                } else {
                    proof {
                        assert(self.after() =~= c0.skip(s as int));
                    }
                }
                proof {
                    assert(self.content() =~= c0.take(s as int) + c0.skip(
                        old(self).delete_end(*range, s as int),
                    ));
                }
            },
        }
    }

    /// The number of grapheme clusters on the given line, or `None` when
    /// the buffer has no such line. A trailing newline opens one further,
    /// empty line.
    pub fn line_length(&self, line: usize) -> (r: Option<usize>)
        requires
            self.wf(),
        ensures
            r is Some <==> crate::text::line_length(self.gb_clusters(), line as int) is Some,
            r matches Some(l) ==> crate::text::line_length(self.gb_clusters(), line as int)
                == Some(l as int),
    {
        let gs = self.segmentation();
        crate::text::walk_line_length(&gs, line)
    }

    /// The index of the buffer's last line, and that line's length in
    /// grapheme clusters. On a buffer ending in a newline the last line is
    /// the empty line after it.
    pub fn last_line(&self) -> (r: (usize, usize))
        requires
            self.wf(),
        ensures
            r.0 == crate::text::newline_count(self.gb_clusters()),
            r.1 == crate::text::tail_length(self.gb_clusters()),
    {
        let gs = self.segmentation();
        crate::text::walk_last_line(&gs)
    }

    /// Checks whether or not the specified position is in bounds of the
    /// buffer data.
    pub fn in_bounds(&self, position: &Position) -> (r: bool)
        requires
            self.wf(),
        ensures
            r == self.resolve(*position).is_some(),
    {
        self.find_offset(position).is_some()
    }

    /// Maps a position to its offset equivalent in the byte storage: the
    /// byte offset of the addressed boundary, counted with the gap, so that
    /// boundaries at or after the gap fall after it.
    pub fn find_offset(&self, position: &Position) -> (r: Option<usize>)
        requires
            self.wf(),
        ensures
            r == match self.resolve(*position) {
                Some(c) => Some(
                    (if c < self.spec_gap_start() {
                        c
                    } else {
                        c + self.spec_gap_length()
                    }) as usize,
                ),
                None => None::<usize>,
            },
    {
        let n = self.data.len();
        let gs = self.segmentation();
        proof {
            assert(self.content().len() + self.spec_gap_length() == n);
            assert(views(gs@).flatten().len() <= usize::MAX);
        }
        match walk_clusters(&gs, position.line, position.offset) {
            Some((c, i)) => {
                proof {
                    assert(views(gs@).take(views(gs@).len() as int) =~= views(gs@));
                    lemma_take_flatten_le(views(gs@), i@, views(gs@).len() as int);
                    assert(c <= self.content().len());
                    assert(c + self.spec_gap_length() <= n);
                }
                if c < self.gap_start {
                    Some(c)
                } else {
                    Some(c + self.gap_length)
                }
            },
            None => None,
        }
    }
}

} // verus!
