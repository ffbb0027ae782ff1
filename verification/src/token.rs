//! Syntax-aware tokenization of buffer contents.
//!
//! The token stream consumes a buffer snapshot, a syntax reference, and a
//! syntax set that parses one line at a time producing scope transition
//! events. It yields `Newline` between lines and `Lexeme`s within them;
//! event offsets from the parser are byte-based, while the positions on
//! emitted lexemes count grapheme clusters.

use vstd::prelude::*;
use vstd::string::StrSliceExecFns;
use vstd::utf8::{decode_utf8, encode_utf8, valid_utf8};
use crate::errors::Error;
use crate::position::Position;
use crate::syntax::{clone_scope_stack, scope_stack_apply, scope_stack_new, LineParser};
use crate::text::{bytes_to_string, bytes_to_string_lossy, clusters, grapheme_clusters};

verus! {

broadcast use vstd::utf8::encode_utf8_valid_utf8;

/// One token of a buffer's contents: a line break, or a lexeme carrying
/// its scope stack and its position.
#[derive(Debug, PartialEq)]
pub enum Token {
    Newline,
    Lexeme(Lexeme),
}

/// A run of characters on one line, together with the syntactic scopes it
/// sits in and the position (line, grapheme offset) where it starts.
#[derive(Debug, PartialEq)]
pub struct Lexeme {
    pub value: String,
    pub scope: syntect::parsing::ScopeStack,
    pub position: Position,
}

/// Splits the remaining bytes into lines, keeping terminators, with `cur`
/// holding the line in progress; the final line is kept even when empty,
/// so content ending in a terminator yields one further, empty line.
pub open spec fn iter_acc(b: Seq<u8>, cur: Seq<u8>) -> Seq<Seq<u8>>
    decreases b.len(),
{
    if b.len() == 0 {
        seq![cur]
    } else if b[0] == 10u8 {
        seq![cur.push(10u8)] + iter_acc(b.skip(1), Seq::empty())
    } else {
        iter_acc(b.skip(1), cur.push(b[0]))
    }
}

/// The lines of a byte sequence, terminators included.
pub open spec fn iter_lines(b: Seq<u8>) -> Seq<Seq<u8>> {
    iter_acc(b, Seq::empty())
}

/// Every byte sequence has at least one line, possibly empty.
pub proof fn lemma_iter_lines_nonempty(b: Seq<u8>)
    ensures
        iter_lines(b).len() >= 1,
{
    lemma_iter_acc_nonempty(b, Seq::empty());
}

proof fn lemma_iter_acc_nonempty(b: Seq<u8>, cur: Seq<u8>)
    ensures
        iter_acc(b, cur).len() >= 1,
    decreases b.len(),
{
    if b.len() > 0 {
        if b[0] == 10u8 {
        } else {
            lemma_iter_acc_nonempty(b.skip(1), cur.push(b[0]));
        }
    }
}

/// An iterator over the lines of a piece of text, including their
/// trailing newlines. A buffer ending immediately after a newline yields
/// one last, empty line.
pub struct LineIterator {
    lines: Vec<String>,
    line_number: usize,
}

/// Splits text into its lines, terminators included, per `iter_lines`.
fn split_with_terminators(data: &str) -> (r: Vec<String>)
    ensures
        r@.len() == iter_lines(encode_utf8(data@)).len(),
        forall|t: int|
            0 <= t < r@.len() ==> (#[trigger] r@[t])@ == decode_utf8(
                iter_lines(encode_utf8(data@))[t],
            ),
{
    let bytes = data.as_bytes_vec();
    let ghost bv = bytes@;
    let mut out: Vec<String> = Vec::new();
    let mut cur: Vec<u8> = Vec::new();
    let ghost mut ls: int = 0;
    let mut i: usize = 0;
    let len = bytes.len();
    proof {
        assert(bv.skip(0) =~= bv);
        assert(cur@ =~= bv.subrange(0, 0));
    }
    while i < len
        invariant
            0 <= ls <= i <= len,
            len == bv.len(),
            bytes@ == bv,
            bv == encode_utf8(data@),
            valid_utf8(bv),
            cur@ == bv.subrange(ls, i as int),
            ls == 0 || bv[ls - 1] == 10u8,
            iter_lines(bv).len() == out@.len() + iter_acc(bv.skip(i as int), cur@).len(),
            forall|t: int|
                0 <= t < out@.len() ==> (#[trigger] out@[t])@ == decode_utf8(iter_lines(bv)[t]),
            forall|t: int|
                0 <= t < iter_acc(bv.skip(i as int), cur@).len() ==> #[trigger] iter_acc(
                    bv.skip(i as int),
                    cur@,
                )[t] == iter_lines(bv)[out@.len() + t],
        decreases len - i,
    {
        let b = bytes[i];
        let ghost rest = bv.skip(i as int);
        proof {
            assert(rest[0] == bv[i as int]);
            assert(rest.skip(1) =~= bv.skip(i as int + 1));
        }
        let ghost cur_old = bv.subrange(ls, i as int);
        let ghost out_old = out@;
        let ghost acc_old = iter_acc(rest, cur_old);
        if b == 10u8 {
            cur.push(b);
            proof {
                assert(cur@ =~= bv.subrange(ls, i as int).push(10u8));
                if ls > 0 {
                    crate::text::lemma_ascii_boundary(bv, ls - 1);
                } else {
                    vstd::utf8::is_char_boundary_start_end_of_seq(bv);
                }
                crate::text::lemma_ascii_boundary(bv, i as int);
                crate::text::lemma_valid_between(bv, ls, i as int + 1);
                assert(bv.subrange(ls, i as int + 1) =~= cur@);
            }
            let finished = bytes_to_string(cur.as_slice());
            cur = Vec::new();
            out.push(finished);
            proof {
                ls = i as int + 1;
                assert(cur@ =~= bv.subrange(ls, i as int + 1));
                assert(acc_old == seq![cur_old.push(10u8)] + iter_acc(
                    rest.skip(1),
                    Seq::<u8>::empty(),
                ));
                assert(acc_old[0] == iter_lines(bv)[out_old.len() as int]);
                assert(finished@ == decode_utf8(cur_old.push(10u8)));
                assert forall|t: int|
                    0 <= t < iter_acc(bv.skip(i as int + 1), cur@).len() implies #[trigger]
                iter_acc(bv.skip(i as int + 1), cur@)[t] == iter_lines(bv)[out@.len() + t] by {
                    assert(iter_acc(bv.skip(i as int + 1), cur@)[t] == acc_old[t + 1]);
                    assert(acc_old[t + 1] == iter_lines(bv)[out_old.len() + (t + 1)]);
                }
            }
        } else {
            cur.push(b);
            proof {
                assert(cur@ =~= bv.subrange(ls, i as int + 1));
                assert(acc_old == iter_acc(rest.skip(1), cur_old.push(bv[i as int])));
                assert(cur_old.push(bv[i as int]) =~= cur@);
            }
        }
        i = i + 1;
    }
    proof {
        assert(bv.skip(len as int).len() == 0);
        if ls > 0 {
            crate::text::lemma_ascii_boundary(bv, ls - 1);
        } else {
            vstd::utf8::is_char_boundary_start_end_of_seq(bv);
        }
        vstd::utf8::is_char_boundary_start_end_of_seq(bv);
        crate::text::lemma_valid_between(bv, ls, len as int);
        assert(bv.subrange(ls, len as int) =~= cur@);
        assert(iter_acc(bv.skip(len as int), cur@) == seq![cur@]);
        assert(iter_acc(bv.skip(len as int), cur@)[0] == iter_lines(bv)[out@.len() as int]);
    }
    let last = bytes_to_string(cur.as_slice());
    out.push(last);
    out
}

impl LineIterator {
    /// The lines still to be yielded come after those already yielded.
    pub open spec fn wf(self) -> bool {
        self.spec_line_number() <= self.spec_lines().len()
    }

    /// All lines of the underlying text.
    pub closed spec fn spec_lines(self) -> Seq<String> {
        self.lines@
    }

    /// The index of the next line to be yielded.
    pub closed spec fn spec_line_number(self) -> int {
        self.line_number as int
    }

    /// Creates an iterator over the lines of the given text.
    pub fn new(data: &str) -> (r: LineIterator)
        ensures
            r.wf(),
            r.spec_line_number() == 0,
            r.spec_lines().len() == iter_lines(encode_utf8(data@)).len(),
            forall|t: int|
                0 <= t < r.spec_lines().len() ==> (#[trigger] r.spec_lines()[t])@ == decode_utf8(
                    iter_lines(encode_utf8(data@))[t],
                ),
    {
        LineIterator { lines: split_with_terminators(data), line_number: 0 }
    }

    /// Whether the iterator has yielded all of its lines.
    pub fn done(&self) -> (r: bool)
        ensures
            r == (self.spec_line_number() == self.spec_lines().len()),
    {
        self.line_number == self.lines.len()
    }

    /// The next line, paired with its index, or nothing when all lines
    /// have been yielded.
    pub fn next(&mut self) -> (r: Option<(usize, String)>)
        requires
            old(self).wf(),
        ensures
            final(self).wf(),
            final(self).spec_lines() == old(self).spec_lines(),
            match r {
                Some(pair) => {
                    &&& old(self).spec_line_number() < old(self).spec_lines().len()
                    &&& pair.0 == old(self).spec_line_number()
                    &&& pair.1@ == old(self).spec_lines()[pair.0 as int]@
                    &&& final(self).spec_line_number() == old(self).spec_line_number() + 1
                },
                None => {
                    &&& old(self).spec_line_number() == old(self).spec_lines().len()
                    &&& *final(self) == *old(self)
                },
            },
    {
        if self.line_number == self.lines.len() {
            return None;
        }
        let number = self.line_number;
        let line = self.lines[number].clone();
        self.line_number = number + 1;
        Some((number, line))
    }
}

/// The byte length of a line without its trailing newline, if any.
pub open spec fn line_eol(lb: Seq<u8>) -> int {
    if lb.len() > 0 && lb.last() == 10u8 {
        lb.len() - 1
    } else {
        lb.len() as int
    }
}

/// A sum pinned at the largest `usize` when it would not fit.
pub open spec fn sat_add(a: int, d: int) -> int {
    if a + d <= usize::MAX {
        a + d
    } else {
        usize::MAX as int
    }
}

/// The outcome of scanning a line for its next lexeme: the events left
/// over, the byte span emitted (if any), where the byte cursor lands,
/// and whether the line stays current (it does not once its tail has
/// been emitted or found empty).
pub struct LexemeStep {
    pub events: Seq<(usize, syntect::parsing::ScopeStackOp)>,
    pub emission: Option<(int, int)>,
    pub new_cur: int,
    pub line_kept: bool,
}

/// Walks the pending events (stored reversed, so the walk pops from the
/// back) from byte offset `cur`. An event strictly past the cursor emits
/// the bytes up to it, clamped before the trailing newline at `eol`;
/// events at or before the cursor only consume. With no event left, the
/// bytes remaining before `eol` form the final lexeme of the line.
pub open spec fn lexeme_step(
    evs: Seq<(usize, syntect::parsing::ScopeStackOp)>,
    cur: int,
    eol: int,
    len: int,
) -> LexemeStep
    decreases evs.len(),
{
    if evs.len() == 0 {
        if cur < eol {
            LexemeStep { events: evs, emission: Some((cur, eol)), new_cur: eol, line_kept: false }
        } else {
            LexemeStep { events: evs, emission: None, new_cur: cur, line_kept: false }
        }
    } else {
        let off = evs.last().0 as int;
        if off > cur {
            let end = if off < eol {
                off
            } else {
                eol
            };
            let ncur = if off < len {
                off
            } else {
                len
            };
            if end > cur {
                LexemeStep {
                    events: evs.drop_last(),
                    emission: Some((cur, end)),
                    new_cur: ncur,
                    line_kept: true,
                }
            } else {
                lexeme_step(evs.drop_last(), ncur, eol, len)
            }
        } else {
            lexeme_step(evs.drop_last(), cur, eol, len)
        }
    }
}

/// A tokenizable snapshot of a buffer's contents, bound to a syntax
/// definition and the set it came from.
pub struct TokenSet<'a> {
    data: String,
    syntax_definition: &'a syntect::parsing::SyntaxReference,
    syntaxes: &'a syntect::parsing::SyntaxSet,
}

impl<'a> TokenSet<'a> {
    /// The snapshot the set tokenizes.
    pub closed spec fn spec_data(self) -> String {
        self.data
    }

    /// Creates a token set over the given snapshot.
    pub fn new(
        data: String,
        def: &'a syntect::parsing::SyntaxReference,
        syntaxes: &'a syntect::parsing::SyntaxSet,
    ) -> (r: TokenSet<'a>)
        ensures
            r.spec_data() == data,
    {
        TokenSet { data, syntax_definition: def, syntaxes }
    }

    /// A token iterator over the snapshot, positioned at its start.
    pub fn iter(&self) -> (r: Result<TokenIterator<'a>, Error>)
        ensures
            r matches Ok(it) ==> it.wf() && it.fresh_over(encode_utf8(self.spec_data()@)),
    {
        TokenIterator::new(self.data.as_str(), self.syntax_definition, self.syntaxes)
    }
}

/// A pull-based stream of tokens over a buffer snapshot.
pub struct TokenIterator<'a> {
    scopes: syntect::parsing::ScopeStack,
    parser: LineParser<'a>,
    lines: LineIterator,
    current_line: Option<(usize, String)>,
    current_byte_offset: usize,
    current_position: Position,
    line_events: Vec<(usize, syntect::parsing::ScopeStackOp)>,
}

impl<'a> TokenIterator<'a> {
    /// The byte cursor stays within the current line.
    pub open spec fn wf(self) -> bool {
        &&& self.spec_lines().wf()
        &&& match self.spec_current_line() {
            Some(pair) => self.spec_byte_offset() <= encode_utf8(pair.1@).len(),
            None => true,
        }
    }

    /// The underlying line iterator.
    pub closed spec fn spec_lines(self) -> LineIterator {
        self.lines
    }

    /// The line currently being tokenized.
    pub closed spec fn spec_current_line(self) -> Option<(usize, String)> {
        self.current_line
    }

    /// The byte offset within the current line.
    pub closed spec fn spec_byte_offset(self) -> int {
        self.current_byte_offset as int
    }

    /// The position (line, grapheme offset) the next lexeme receives.
    pub closed spec fn spec_position(self) -> Position {
        self.current_position
    }

    /// The iterator stands at the start of the snapshot `b`: its lines
    /// are `b`'s lines, the first of them is current, and both cursors
    /// sit at the origin.
    pub open spec fn fresh_over(self, b: Seq<u8>) -> bool {
        &&& self.spec_lines().spec_lines().len() == iter_lines(b).len()
        &&& forall|t: int|
            0 <= t < iter_lines(b).len() ==> (#[trigger] self.spec_lines().spec_lines()[t])@
                == decode_utf8(iter_lines(b)[t])
        &&& self.spec_lines().spec_line_number() == 1
        &&& self.spec_current_line() matches Some(pair) && pair.0 == 0 && pair.1@
            == self.spec_lines().spec_lines()[0]@
        &&& self.spec_byte_offset() == 0
        &&& self.spec_position() == (Position { line: 0, offset: 0 })
    }

    /// A lexeme was produced from the current line: it covers the byte
    /// span the pending events dictate, carries the position the cursor
    /// stood at, and the cursors advance over it (the grapheme offset by
    /// the lexeme's cluster count, pinned at the largest `usize`). The
    /// line stays current unless this was its final lexeme.
    pub open spec fn emitted(o: Self, f: Self, lex: Lexeme) -> bool {
        match o.spec_current_line() {
            Some(pair) => {
                let lb = encode_utf8(pair.1@);
                let step = lexeme_step(
                    o.spec_events(),
                    o.spec_byte_offset(),
                    line_eol(lb),
                    lb.len() as int,
                );
                &&& step.emission matches Some(span)
                &&& f.spec_events() == step.events
                &&& f.spec_byte_offset() == step.new_cur
                &&& (valid_utf8(
                    lb.subrange(step.emission.unwrap().0, step.emission.unwrap().1),
                ) ==> lex.value@ == decode_utf8(
                    lb.subrange(step.emission.unwrap().0, step.emission.unwrap().1),
                ))
                &&& lex.position == o.spec_position()
                &&& f.spec_current_line() == (if step.line_kept {
                    o.spec_current_line()
                } else {
                    None::<(usize, String)>
                })
                &&& f.spec_position().line == o.spec_position().line
                &&& (if step.line_kept {
                    f.spec_position().offset == sat_add(
                        o.spec_position().offset as int,
                        clusters(encode_utf8(lex.value@)).len() as int,
                    )
                } else {
                    f.spec_position() == o.spec_position()
                })
                &&& f.spec_lines() == o.spec_lines()
            },
            None => false,
        }
    }

    /// The current line, if any, held no further lexeme: the pending
    /// events are consumed, the line is no longer current, and nothing
    /// else changes.
    pub open spec fn line_drained(o: Self, f: Self) -> bool {
        match o.spec_current_line() {
            Some(pair) => {
                let lb = encode_utf8(pair.1@);
                let step = lexeme_step(
                    o.spec_events(),
                    o.spec_byte_offset(),
                    line_eol(lb),
                    lb.len() as int,
                );
                &&& step.emission is None
                &&& f.spec_events() == step.events
                &&& f.spec_byte_offset() == step.new_cur
                &&& f.spec_current_line() is None
                &&& f.spec_position() == o.spec_position()
                &&& f.spec_lines() == o.spec_lines()
            },
            None => f == o,
        }
    }

    /// The next line of the snapshot became current, with both cursors
    /// reset to its start.
    pub open spec fn advanced_line(o: Self, f: Self) -> bool {
        &&& o.spec_lines().spec_line_number() < o.spec_lines().spec_lines().len()
        &&& f.spec_lines().spec_lines() == o.spec_lines().spec_lines()
        &&& f.spec_lines().spec_line_number() == o.spec_lines().spec_line_number() + 1
        &&& f.spec_current_line() matches Some(pair) && pair.0 == o.spec_lines(
        ).spec_line_number() && pair.1@ == o.spec_lines().spec_lines()[pair.0 as int]@
        &&& f.spec_byte_offset() == 0
        &&& f.spec_position().line == o.spec_lines().spec_line_number()
        &&& f.spec_position().offset == 0
    }

    /// The current line (if any) yielded its last lexeme earlier, and
    /// the stream moved past its terminator onto the next line.
    pub open spec fn drained_then_advanced(o: Self, f: Self) -> bool {
        &&& (match o.spec_current_line() {
            Some(pair) => {
                let lb = encode_utf8(pair.1@);
                lexeme_step(
                    o.spec_events(),
                    o.spec_byte_offset(),
                    line_eol(lb),
                    lb.len() as int,
                ).emission is None
            },
            None => true,
        })
        &&& o.spec_lines().spec_line_number() < o.spec_lines().spec_lines().len()
        &&& f.spec_lines().spec_lines() == o.spec_lines().spec_lines()
        &&& f.spec_lines().spec_line_number() == o.spec_lines().spec_line_number() + 1
        &&& f.spec_current_line() matches Some(pair) && pair.0 == o.spec_lines(
        ).spec_line_number() && pair.1@ == o.spec_lines().spec_lines()[pair.0 as int]@
        &&& f.spec_byte_offset() == 0
        &&& f.spec_position().line == o.spec_lines().spec_line_number()
        &&& f.spec_position().offset == 0
    }

    /// The current line (if any) yielded its last lexeme earlier, and no
    /// line of the snapshot remains.
    pub open spec fn drained_then_exhausted(o: Self, f: Self) -> bool {
        &&& (match o.spec_current_line() {
            Some(pair) => {
                let lb = encode_utf8(pair.1@);
                lexeme_step(
                    o.spec_events(),
                    o.spec_byte_offset(),
                    line_eol(lb),
                    lb.len() as int,
                ).emission is None
            },
            None => true,
        })
        &&& o.spec_lines().spec_line_number() == o.spec_lines().spec_lines().len()
        &&& f.spec_current_line() is None
        &&& f.spec_lines().spec_lines() == o.spec_lines().spec_lines()
        &&& f.spec_lines().spec_line_number() == o.spec_lines().spec_line_number()
    }

    /// Every line of the snapshot has been yielded; no line is current.
    pub open spec fn lines_exhausted(o: Self, f: Self) -> bool {
        &&& o.spec_lines().spec_line_number() == o.spec_lines().spec_lines().len()
        &&& f.spec_current_line() is None
        &&& f.spec_lines() == o.spec_lines()
        &&& f.spec_events() == o.spec_events()
        &&& f.spec_byte_offset() == o.spec_byte_offset()
        &&& f.spec_position() == o.spec_position()
    }

    /// Creates a token stream over `data`, preloading the first line.
    /// Fails when the reference names no definition of the set, or when
    /// the parser rejects the first line.
    pub fn new(
        data: &str,
        syntax_ref: &syntect::parsing::SyntaxReference,
        syntax_set: &'a syntect::parsing::SyntaxSet,
    ) -> (r: Result<TokenIterator<'a>, Error>)
        ensures
            r matches Ok(it) ==> it.wf() && it.fresh_over(encode_utf8(data@)),
    {
        proof {
            lemma_iter_lines_nonempty(encode_utf8(data@));
        }
        let parser = match LineParser::new(syntax_set, syntax_ref) {
            Some(parser) => parser,
            None => {
                // The reference names no definition of this set.
                return Err(crate::errors::Error::MissingSyntax);
            },
        };
        let mut token_iterator = TokenIterator {
            scopes: scope_stack_new(),
            parser,
            lines: LineIterator::new(data),
            current_line: None,
            current_byte_offset: 0,
            current_position: Position { line: 0, offset: 0 },
            line_events: Vec::new(),
        };

        // Preload the first line.
        match token_iterator.parse_next_line() {
            Ok(()) => Ok(token_iterator),
            Err(error) => Err(error),
        }
    }

    /// The next token of the stream: the remaining lexemes of the current
    /// line, a `Newline` between lines, and nothing once the snapshot is
    /// exhausted. Parser failures surface as errors.
    pub fn next_token(&mut self) -> (r: Result<Option<Token>, Error>)
        requires
            old(self).wf(),
        ensures
            final(self).wf(),
            match r {
                Ok(Some(token)) => match token {
                    Token::Lexeme(lex) => Self::emitted(*old(self), *final(self), lex),
                    Token::Newline => Self::drained_then_advanced(*old(self), *final(self)),
                },
                Ok(None) => Self::drained_then_exhausted(*old(self), *final(self)),
                Err(_) => final(self).spec_current_line() is None,
            },
    {
        // Try to fetch a token from the current line.
        if let Some(token) = self.build_next_token() {
            return Ok(Some(token));
        }

        // We're done with this line; on to the next.
        match self.parse_next_line() {
            Ok(()) => {
            },
            Err(error) => {
                return Err(error);
            },
        }
        match &self.current_line {
            Some(_) => Ok(Some(Token::Newline)),
            None => Ok(None),
        }
    }

    /// The pending scope events of the current line.
    pub closed spec fn spec_events(self) -> Seq<(usize, syntect::parsing::ScopeStackOp)> {
        self.line_events@
    }

    /// Builds the next lexeme of the current line, if any bytes remain
    /// before its trailing newline.
    fn build_next_token(&mut self) -> (r: Option<Token>)
        requires
            old(self).wf(),
        ensures
            final(self).wf(),
            match r {
                Some(token) => token matches Token::Lexeme(lex) && Self::emitted(
                    *old(self),
                    *final(self),
                    lex,
                ),
                None => Self::line_drained(*old(self), *final(self)),
            },
    {
        let mut lexeme: Option<Token> = None;

        let current = self.current_line.take();
        match current {
            Some((line_number, line)) => {
                let ghost ev0 = old(self).spec_events();
                let ghost cur0 = old(self).spec_byte_offset();
                let line_bytes = line.as_str().as_bytes_vec();
                let ghost lb = line_bytes@;
                // Exclude trailing newlines (the Newline token stands for those).
                let has_newline = line_bytes.len() > 0 && line_bytes[line_bytes.len() - 1]
                    == 10u8;
                let end_of_line = if has_newline {
                    line_bytes.len() - 1
                } else {
                    line_bytes.len()
                };
                proof {
                    assert(end_of_line == line_eol(lb));
                }

                loop
                    invariant
                        ev0 == old(self).spec_events(),
                        cur0 == old(self).spec_byte_offset(),
                        self.current_byte_offset <= lb.len(),
                        line_bytes@ == lb,
                        lb == encode_utf8(line@),
                        end_of_line == line_eol(lb),
                        end_of_line <= lb.len(),
                        self.spec_lines() == old(self).spec_lines(),
                        self.spec_lines().wf(),
                        self.spec_current_line() is None,
                        self.spec_position() == old(self).spec_position(),
                        lexeme is None,
                        old(self).spec_current_line() matches Some(pair) && pair.0 == line_number
                            && pair.1 == line,
                        lexeme_step(ev0, cur0, line_eol(lb), lb.len() as int) == lexeme_step(
                            self.spec_events(),
                            self.spec_byte_offset(),
                            line_eol(lb),
                            lb.len() as int,
                        ),
                    decreases self.line_events@.len(),
                {
                    let ghost evs_pre = self.spec_events();
                    let ghost cur_pre = self.spec_byte_offset();
                    let event = self.line_events.pop();
                    match event {
                        Some((event_offset, scope_change)) => {
                            proof {
                                assert(evs_pre.last() == (event_offset, scope_change));
                                assert(self.spec_events() == evs_pre.drop_last());
                            }
                            // Capture the scope run before this event as a lexeme.
                            if event_offset > self.current_byte_offset {
                                // Don't include trailing newlines in lexemes.
                                let end_of_token = if event_offset < end_of_line {
                                    event_offset
                                } else {
                                    end_of_line
                                };
                                if end_of_token > self.current_byte_offset {
                                    let value = slice_text(
                                        &line_bytes,
                                        self.current_byte_offset,
                                        end_of_token,
                                    );
                                    let width = grapheme_count(&value);
                                    let lex = Lexeme {
                                        value,
                                        scope: clone_scope_stack(&self.scopes),
                                        position: self.current_position,
                                    };
                                    // Event offsets are byte-based, but positions
                                    // count grapheme clusters.
                                    let new_offset = if width
                                        <= usize::MAX - self.current_position.offset {
                                        self.current_position.offset + width
                                    } else {
                                        usize::MAX
                                    };
                                    let clamped = if event_offset < line_bytes.len() {
                                        event_offset
                                    } else {
                                        line_bytes.len()
                                    };
                                    proof {
                                        assert(lexeme_step(
                                            evs_pre,
                                            cur_pre,
                                            line_eol(lb),
                                            lb.len() as int,
                                        ) == LexemeStep {
                                            events: evs_pre.drop_last(),
                                            emission: Some((cur_pre, end_of_token as int)),
                                            new_cur: clamped as int,
                                            line_kept: true,
                                        });
                                    }
                                    self.current_position = Position {
                                        line: self.current_position.line,
                                        offset: new_offset,
                                    };
                                    self.current_byte_offset = clamped;
                                    // Apply the scope change, so that later
                                    // lexemes carry the full stack.
                                    match scope_stack_apply(&mut self.scopes, &scope_change) {
                                        Ok(()) => {
                                        },
                                        Err(_) => {
                                        },
                                    }
                                    self.current_line = Some((line_number, line));
                                    return Some(Token::Lexeme(lex));
                                }
                                let clamped = if event_offset < line_bytes.len() {
                                    event_offset
                                } else {
                                    line_bytes.len()
                                };
                                self.current_byte_offset = clamped;
                            }
                            // Apply the scope change, so that later lexemes carry
                            // the full stack.
                            match scope_stack_apply(&mut self.scopes, &scope_change) {
                                Ok(()) => {
                                },
                                Err(_) => {
                                },
                            }
                            proof {
                                assert(lexeme_step(
                                    evs_pre,
                                    cur_pre,
                                    line_eol(lb),
                                    lb.len() as int,
                                ) == lexeme_step(
                                    self.spec_events(),
                                    self.spec_byte_offset(),
                                    line_eol(lb),
                                    lb.len() as int,
                                ));
                            }
                        },
                        None => {
                            // Every event is consumed; categorize the rest
                            // of the line with the last known scope.
                            proof {
                                assert(evs_pre.len() == 0);
                            }
                            if self.current_byte_offset < end_of_line {
                                let ghost cur_tail = self.spec_byte_offset();
                                let value = slice_text(
                                    &line_bytes,
                                    self.current_byte_offset,
                                    end_of_line,
                                );
                                let lex = Lexeme {
                                    value,
                                    scope: clone_scope_stack(&self.scopes),
                                    position: self.current_position,
                                };
                                proof {
                                    assert(lexeme_step(
                                        ev0,
                                        cur0,
                                        line_eol(lb),
                                        lb.len() as int,
                                    ) == LexemeStep {
                                        events: self.spec_events(),
                                        emission: Some((cur_tail, end_of_line as int)),
                                        new_cur: end_of_line as int,
                                        line_kept: false,
                                    });
                                }
                                self.current_byte_offset = end_of_line;
                                return Some(Token::Lexeme(lex));
                            }
                            // The line held nothing further; leave it
                            // cleared so the stream moves on.
                            return None;
                        },
                    }
                }
            },
            None => None,
        }
    }

    /// Parses the next line, if any, resetting the per-line state.
    fn parse_next_line(&mut self) -> (r: Result<(), Error>)
        requires
            old(self).wf(),
        ensures
            final(self).wf(),
            match r {
                Ok(_) => if old(self).spec_lines().spec_line_number() < old(
                    self,
                ).spec_lines().spec_lines().len() {
                    Self::advanced_line(*old(self), *final(self))
                } else {
                    Self::lines_exhausted(*old(self), *final(self))
                },
                Err(_) => {
                    &&& final(self).spec_current_line() is None
                    &&& final(self).spec_lines().spec_lines() == old(
                        self,
                    ).spec_lines().spec_lines()
                },
            },
    {
        match self.lines.next() {
            Some((line_number, line)) => {
                let events = self.parser.parse_line(line.as_str());
                match events {
                    Ok(line_events) => {
                        // Reverse the events so that they pop off in order.
                        let reversed = reverse_events(line_events);
                        self.line_events = reversed;
                        self.current_position = Position { line: line_number, offset: 0 };
                        self.current_byte_offset = 0;
                        self.current_line = Some((line_number, line));
                        Ok(())
                    },
                    Err(error) => {
                        self.current_line = None;
                        Err(error)
                    },
                }
            },
            None => {
                self.current_line = None;
                Ok(())
            },
        }
    }
}

/// The substring of a line's bytes between the given offsets, decoded
/// exactly when the slice falls on character boundaries.
fn slice_text(bytes: &Vec<u8>, from: usize, to: usize) -> (r: String)
    requires
        from <= to <= bytes@.len(),
    ensures
        valid_utf8(bytes@.subrange(from as int, to as int)) ==> r@ == decode_utf8(
            bytes@.subrange(from as int, to as int),
        ),
{
    let slice = vstd::slice::slice_subrange(bytes.as_slice(), from, to);
    bytes_to_string_lossy(slice)
}

/// The number of grapheme clusters in a string.
fn grapheme_count(value: &String) -> (r: usize)
    ensures
        r == crate::text::clusters(encode_utf8(value@)).len(),
{
    let bytes = value.as_str().as_bytes_vec();
    let gs = grapheme_clusters(bytes.as_slice());
    gs.len()
}

/// Reverses a vector of scope events, so that they pop off in order.
fn reverse_events(events: Vec<(usize, syntect::parsing::ScopeStackOp)>) -> (r: Vec<
    (usize, syntect::parsing::ScopeStackOp),
>)
    ensures
        r@.len() == events@.len(),
        forall|i: int| 0 <= i < r@.len() ==> #[trigger] r@[i] == events@[events@.len() - 1 - i],
{
    let mut out: Vec<(usize, syntect::parsing::ScopeStackOp)> = Vec::new();
    let mut remaining = events;
    let ghost original = remaining@;
    proof {
        assert(original.take(original.len() as int) =~= original);
    }
    loop
        invariant
            original == events@,
            out@.len() <= original.len(),
            remaining@ == original.take(original.len() - out@.len()),
            forall|i: int|
                0 <= i < out@.len() ==> #[trigger] out@[i] == original[original.len() - 1 - i],
        decreases remaining@.len(),
    {
        let ghost rem_old = remaining@;
        let ghost n = original.len() - out@.len();
        match remaining.pop() {
            Some(event) => {
                out.push(event);
                proof {
                    assert(event == rem_old[n - 1]);
                    assert(rem_old[n - 1] == original[n - 1]);
                    assert(remaining@ =~= original.take(n - 1));
                }
            },
            None => {
                proof {
                    assert(original.take(original.len() - out@.len()).len() == 0);
                }
                return out;
            },
        }
    }
}

} // verus!
