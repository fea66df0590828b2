//! The lexer: it turns the bytes of a source file into tokens with locations.
pub mod grammar;
pub mod spelling;

use vstd::prelude::*;

use crate::data::error::{CompileError, CompileResult, CompileWarning, Error, ErrorHandler, LexError, Radix, Warning};
use crate::data::lex::{
    AssignmentToken, ComparisonToken, FileId, Locatable, Location, LiteralToken, Span, Token,
    TokenView,
};
use grammar::{CharError, Warnings};

verus! {

/// Where the lexer stands in a file.
struct SingleLocation {
    offset: u32,
    file: FileId,
}

/// A Lexer takes the source code and turns it into tokens with location information.
///
/// Tokens are either literals, keywords, identifiers, or builtin operations.
/// Location information is kept as byte spans into the file, so that errors can point
/// at the code they are about.
pub struct Lexer {
    location: SingleLocation,
    chars: Vec<u8>,
    /// whether a token other than `#` has been seen on this line
    seen_line_token: bool,
    /// the number of newlines read so far
    line: usize,
    error_handler: ErrorHandler,
}

/// The location of the span `a..b` in `file`.
pub open spec fn loc(file: FileId, a: int, b: int) -> Location {
    Location { span: Span { start: a as u32, end: b as u32 }, file }
}

/// The warnings `w` as the lexer records them for `file`.
pub open spec fn located_warnings(w: Warnings, file: FileId) -> Seq<CompileWarning> {
    w.map_values(|x: (Warning, int, int)| Locatable { data: x.0, location: loc(file, x.1, x.2) })
}

/// Whether `r` is the token or error that the grammar gives as `v`.
pub open spec fn token_result_matches(r: Result<Token, LexError>, v: Result<TokenView, LexError>) -> bool {
    match (r, v) {
        (Ok(t), Ok(tv)) => t@ == tv,
        (Err(a), Err(b)) => a == b,
        _ => false,
    }
}

/// Whether `r` is the byte string or error that the grammar gives as `v`.
pub open spec fn bytes_result_matches(r: Result<Vec<u8>, LexError>, v: Result<Seq<u8>, LexError>) -> bool {
    match (r, v) {
        (Ok(b), Ok(bv)) => b@ == bv,
        (Err(a), Err(b)) => a == b,
        _ => false,
    }
}

/// Whether `r`, a result of `Lexer::next_token`, is what one step of the grammar from
/// `i` gives in `file`.
pub open spec fn step_matches(
    r: Option<CompileResult<Locatable<Token>>>,
    s: Seq<u8>,
    i: int,
    file: FileId,
) -> bool {
    let (res, a, b, _w) = grammar::lex_step(s, i);
    match (r, res) {
        (None, None) => true,
        (Some(Ok(t)), Some(Ok(tv))) => t.data@ == tv && t.location == loc(file, a, b),
        (Some(Err(e)), Some(Err(le))) => e.data == Error::Lex(le) && e.location == loc(file, a, b),
        _ => false,
    }
}

pub proof fn lemma_located_warnings_add(w1: Warnings, w2: Warnings, file: FileId)
    ensures
        located_warnings(w1 + w2, file) == located_warnings(w1, file) + located_warnings(w2, file),
{
    assert(located_warnings(w1 + w2, file) =~= located_warnings(w1, file) + located_warnings(w2, file));
}

pub proof fn lemma_newlines_take(s: Seq<u8>, i: int)
    requires
        0 <= i < s.len(),
    ensures
        grammar::newlines(s.take(i + 1)) == grammar::newlines(s.take(i)) + if s[i] == 0x0au8 {
            1nat
        } else {
            0nat
        },
{
    assert(s.take(i + 1).drop_last() =~= s.take(i));
}

pub proof fn lemma_newlines_bound(s: Seq<u8>)
    ensures
        grammar::newlines(s) <= s.len(),
    decreases s.len(),
{
    if s.len() > 0 {
        lemma_newlines_bound(s.drop_last());
    }
}

impl Lexer {
    /// The bytes being lexed.
    pub closed spec fn input(&self) -> Seq<u8> {
        self.chars@
    }

    /// The offset of the next byte to read.
    pub closed spec fn pos(&self) -> int {
        self.location.offset as int
    }

    pub closed spec fn file(&self) -> FileId {
        self.location.file
    }

    /// The number of lines read so far.
    pub closed spec fn line(&self) -> int {
        self.line as int
    }

    /// Whether a token other than `#` has been read since the last newline.
    pub closed spec fn seen_line_token(&self) -> bool {
        self.seen_line_token
    }

    /// The warnings given so far.
    pub closed spec fn warnings(&self) -> Seq<CompileWarning> {
        self.error_handler.warnings_view()
    }

    /// The errors in the lexer's queue; lexing errors are returned, never queued.
    pub closed spec fn errors(&self) -> Seq<CompileError> {
        self.error_handler.errors_view()
    }

    /// The lexer's invariant: the input fits 32-bit offsets, the offset lies in it, and
    /// the line count is the number of newlines before the offset.
    pub closed spec fn wf(&self) -> bool {
        &&& self.chars@.len() < u32::MAX
        &&& self.location.offset <= self.chars@.len()
        &&& self.line == grammar::newlines(self.chars@.take(self.location.offset as int))
    }

    /// The lexer went from `a` to `b`, reading input forward and giving the warnings `w`.
    pub closed spec fn moved(a: Lexer, b: Lexer, w: Warnings) -> bool {
        &&& b.wf()
        &&& b.chars@ == a.chars@
        &&& b.location.file == a.location.file
        &&& a.location.offset <= b.location.offset
        &&& b.error_handler.warnings_view() == a.error_handler.warnings_view() + located_warnings(w, a.location.file)
        &&& b.error_handler.errors_view() == a.error_handler.errors_view()
    }

    /// Reading from `a` to `b` forgets a token seen on a line once a newline is read.
    pub closed spec fn line_flag_kept(a: Lexer, b: Lexer) -> bool {
        b.seen_line_token == if b.line > a.line {
            false
        } else {
            a.seen_line_token
        }
    }

    proof fn lemma_moved_trans(a: Lexer, b: Lexer, c: Lexer, w1: Warnings, w2: Warnings)
        requires
            Self::moved(a, b, w1),
            Self::moved(b, c, w2),
        ensures
            Self::moved(a, c, w1 + w2),
    {
        lemma_located_warnings_add(w1, w2, a.location.file);
        assert(c.error_handler.warnings_view() =~= a.error_handler.warnings_view() + located_warnings(w1 + w2, a.location.file));
    }

    proof fn lemma_line_monotone(a: Lexer, b: Lexer)
        requires
            a.wf(),
            b.wf(),
            a.chars@ == b.chars@,
            a.location.offset <= b.location.offset,
        ensures
            a.line <= b.line,
    {
        let s = a.chars@;
        let i = a.location.offset as int;
        let j = b.location.offset as int;
        lemma_newlines_mono(s, i, j);
    }

    proof fn lemma_moved_refl(a: Lexer)
        requires
            a.wf(),
        ensures
            Self::moved(a, a, grammar::no_warnings()),
            Self::line_flag_kept(a, a),
    {
        assert(located_warnings(grammar::no_warnings(), a.location.file) =~= Seq::<CompileWarning>::empty());
        assert(a.error_handler.warnings_view() =~= a.error_handler.warnings_view() + located_warnings(grammar::no_warnings(), a.location.file));
    }

    /// Two moves in a row make one.
    proof fn lemma_chain(a: Lexer, b: Lexer, c: Lexer, w1: Warnings, w2: Warnings)
        requires
            a.wf(),
            Self::moved(a, b, w1),
            Self::moved(b, c, w2),
            Self::line_flag_kept(a, b),
            Self::line_flag_kept(b, c),
        ensures
            Self::moved(a, c, w1 + w2),
            Self::line_flag_kept(a, c),
            w1 == grammar::no_warnings() ==> Self::moved(a, c, w2),
            w2 == grammar::no_warnings() ==> Self::moved(a, c, w1),
    {
        Self::lemma_moved_trans(a, b, c, w1, w2);
        Self::lemma_line_monotone(a, b);
        Self::lemma_line_monotone(b, c);
        assert(grammar::no_warnings() + w2 =~= w2);
        assert(w1 + grammar::no_warnings() =~= w1);
    }

    /// Creates a Lexer for `chars`, the contents of `file`.
    pub fn new(file: FileId, chars: Vec<u8>) -> (r: Lexer)
        requires
            chars@.len() < u32::MAX,
        ensures
            r.wf(),
            r.input() == chars@,
            r.pos() == 0,
            r.file() == file,
            r.line() == 0,
            !r.seen_line_token(),
            r.warnings() == Seq::<CompileWarning>::empty(),
            r.errors() == Seq::<CompileError>::empty(),
    {
        let r = Lexer {
            location: SingleLocation { offset: 0, file },
            chars,
            seen_line_token: false,
            line: 0,
            error_handler: ErrorHandler::new(),
        };
        assert(r.chars@.take(0) =~= Seq::<u8>::empty());
        r
    }

    /// The errors and warnings the lexer has recorded: the warnings given so far.
    pub fn error_handler(&self) -> (r: &ErrorHandler)
        ensures
            r.warnings_view() == self.warnings(),
            r.errors_view() == self.errors(),
    {
        &self.error_handler
    }

    /// Read the next byte, keeping the line count: the byte at the position, which moves
    /// past it; `None`, in place, at the end of the input.
    pub fn next_char(&mut self) -> (r: Option<u8>)
        requires
            old(self).wf(),
        ensures
            Self::moved(*old(self), *final(self), grammar::no_warnings()),
            Self::line_flag_kept(*old(self), *final(self)),
            r == grammar::byte_at(old(self).input(), old(self).pos()),
            final(self).pos() == old(self).pos() + if r is Some {
                1int
            } else {
                0int
            },
            final(self).wf(),
            final(self).input() == old(self).input(),
            final(self).file() == old(self).file(),
            final(self).warnings() == old(self).warnings(),
            final(self).errors() == old(self).errors(),
            final(self).line() == grammar::newlines(final(self).input().take(final(self).pos())),
    {
        proof {
            assert(located_warnings(grammar::no_warnings(), self.location.file) =~= Seq::<CompileWarning>::empty());
            assert(self.error_handler.warnings_view() + Seq::<CompileWarning>::empty() =~= self.error_handler.warnings_view());
        }
        let off = self.location.offset as usize;
        if off < self.chars.len() {
            let c = self.chars[off];
            proof {
                lemma_newlines_take(self.chars@, off as int);
                lemma_newlines_bound(self.chars@.take(off as int));
            }
            self.location.offset = self.location.offset + 1;
            if c == 0x0au8 {
                self.seen_line_token = false;
                self.line = self.line + 1;
            }
            proof {
                assert(located_warnings(grammar::no_warnings(), self.location.file) =~= Seq::<CompileWarning>::empty());
                assert(self.error_handler.warnings_view() =~= old(self).error_handler.warnings_view() + located_warnings(grammar::no_warnings(), self.location.file));
            }
            Some(c)
        } else {
            proof {
                assert(located_warnings(grammar::no_warnings(), self.location.file) =~= Seq::<CompileWarning>::empty());
                assert(self.error_handler.warnings_view() =~= old(self).error_handler.warnings_view() + located_warnings(grammar::no_warnings(), self.location.file));
            }
            None
        }
    }

    /// The byte that `next_char` would return. Peeking reads without changing the lexer,
    /// so it gives the same byte any number of times, and the next `next_char` returns it.
    pub fn peek(&self) -> (r: Option<u8>)
        requires
            self.wf(),
        ensures
            r == grammar::byte_at(self.input(), self.pos()),
    {
        let off = self.location.offset as usize;
        if off < self.chars.len() {
            Some(self.chars[off])
        } else {
            None
        }
    }

    /// The byte after the one that `next_char` would return.
    fn peek_next(&self) -> (r: Option<u8>)
        requires
            self.wf(),
        ensures
            r == grammar::byte_at(self.input(), self.pos() + 1),
    {
        let off = self.location.offset as usize + 1;
        if off < self.chars.len() {
            Some(self.chars[off])
        } else {
            None
        }
    }

    /// If the next byte is `item`, consume it and return true.
    /// Otherwise, return false.
    fn match_next(&mut self, item: u8) -> (r: bool)
        requires
            old(self).wf(),
        ensures
            Self::moved(*old(self), *final(self), grammar::no_warnings()),
            Self::line_flag_kept(*old(self), *final(self)),
            r == grammar::is_at(old(self).input(), old(self).pos(), item),
            final(self).pos() == old(self).pos() + if r {
                1int
            } else {
                0int
            },
    {
        if self.peek() == Some(item) {
            self.next_char();
            true
        } else {
            proof {
                assert(located_warnings(grammar::no_warnings(), self.location.file) =~= Seq::<CompileWarning>::empty());
                assert(self.error_handler.warnings_view() =~= old(self).error_handler.warnings_view() + located_warnings(grammar::no_warnings(), self.location.file));
            }
            false
        }
    }

    /// Remove all consecutive whitespace pending in the stream.
    fn consume_whitespace(&mut self)
        requires
            old(self).wf(),
        ensures
            Self::moved(*old(self), *final(self), grammar::no_warnings()),
            Self::line_flag_kept(*old(self), *final(self)),
            final(self).pos() == grammar::space_end(old(self).input(), old(self).pos()),
    {
        proof {
            Self::lemma_moved_refl(*self);
        }
        loop
            invariant
                old(self).wf(),
                Self::moved(*old(self), *self, grammar::no_warnings()),
                Self::line_flag_kept(*old(self), *self),
                grammar::space_end(self.input(), self.pos()) == grammar::space_end(old(self).input(), old(self).pos()),
            ensures
                Self::moved(*old(self), *self, grammar::no_warnings()),
                Self::line_flag_kept(*old(self), *self),
                self.pos() == grammar::space_end(old(self).input(), old(self).pos()),
            decreases self.input().len() - self.pos(),
        {
            match self.peek() {
                Some(c) => {
                    if is_space_byte(c) {
                        let ghost before = *self;
                        self.next_char();
                        proof {
                            Self::lemma_chain(*old(self), before, *self, grammar::no_warnings(), grammar::no_warnings());
                        }
                    } else {
                        break;
                    }
                },
                None => break,
            }
        }
    }

    /// Remove all characters up to and including the next newline.
    fn consume_line_comment(&mut self)
        requires
            old(self).wf(),
        ensures
            Self::moved(*old(self), *final(self), grammar::no_warnings()),
            Self::line_flag_kept(*old(self), *final(self)),
            final(self).pos() == grammar::line_comment_end(old(self).input(), old(self).pos()),
    {
        proof {
            Self::lemma_moved_refl(*self);
        }
        loop
            invariant_except_break
                grammar::line_comment_end(self.input(), self.pos()) == grammar::line_comment_end(old(self).input(), old(self).pos()),
            invariant
                old(self).wf(),
                Self::moved(*old(self), *self, grammar::no_warnings()),
                Self::line_flag_kept(*old(self), *self),
            ensures
                Self::moved(*old(self), *self, grammar::no_warnings()),
                Self::line_flag_kept(*old(self), *self),
                self.pos() == grammar::line_comment_end(old(self).input(), old(self).pos()),
            decreases self.input().len() - self.pos(),
        {
            let ghost before = *self;
            let c = self.next_char();
            proof {
                Self::lemma_chain(*old(self), before, *self, grammar::no_warnings(), grammar::no_warnings());
            }
            match c {
                Some(c) => {
                    if c == 0x0au8 {
                        break;
                    }
                },
                None => break,
            }
        }
    }

    /// Remove a multi-line C-style comment, i.e. until the next '*/'.
    /// The comment's `/*` ends just before the current offset.
    fn consume_multi_comment(&mut self) -> (r: CompileResult<()>)
        requires
            old(self).wf(),
            old(self).pos() >= 2,
        ensures
            Self::moved(*old(self), *final(self), grammar::no_warnings()),
            Self::line_flag_kept(*old(self), *final(self)),
            match grammar::block_comment_end(old(self).input(), old(self).pos()) {
                Some(e) => r is Ok && final(self).pos() == e,
                None => r == Err::<(), Locatable<Error>>((Locatable {
                    data: Error::Lex(LexError::UnterminatedComment),
                    location: loc(old(self).file(), old(self).pos() - 2, old(self).input().len() as int),
                })) && final(self).pos() == old(self).input().len(),
            },
    {
        let start = self.location.offset - 2;
        proof {
            Self::lemma_moved_refl(*self);
        }
        loop
            invariant
                old(self).wf(),
                Self::moved(*old(self), *self, grammar::no_warnings()),
                Self::line_flag_kept(*old(self), *self),
                grammar::block_comment_end(self.input(), self.pos()) == grammar::block_comment_end(old(self).input(), old(self).pos()),
                start == old(self).pos() - 2,
            decreases self.input().len() - self.pos(),
        {
            let ghost before = *self;
            let c = self.next_char();
            proof {
                Self::lemma_chain(*old(self), before, *self, grammar::no_warnings(), grammar::no_warnings());
            }
            match c {
                Some(c) => {
                    if c == 0x2au8 && self.peek() == Some(0x2fu8) {
                        let ghost before2 = *self;
                        self.next_char();
                        proof {
                            Self::lemma_chain(*old(self), before2, *self, grammar::no_warnings(), grammar::no_warnings());
                        }
                        return Ok(());
                    }
                },
                None => {
                    return Err(Locatable {
                        data: Error::Lex(LexError::UnterminatedComment),
                        location: self.span(start),
                    });
                },
            }
        }
    }

    /// Scan digits of base `radix`, appending them to `buf`.
    /// Returns whether there was at least one.
    fn parse_int(&mut self, radix: u32, buf: &mut Vec<u8>) -> (r: Result<bool, LexError>)
        requires
            old(self).wf(),
            radix == 2 || radix == 8 || radix == 10 || radix == 16,
        ensures
            Self::moved(*old(self), *final(self), grammar::no_warnings()),
            Self::line_flag_kept(*old(self), *final(self)),
            match grammar::digit_scan(old(self).input(), old(self).pos(), radix) {
                Ok(e) => r == Ok::<bool, LexError>(e > old(self).pos()) && final(self).pos() == e
                    && final(buf)@ == old(buf)@ + old(self).input().subrange(old(self).pos(), e),
                Err((d, q)) => r == Err::<bool, LexError>(LexError::InvalidDigit { digit: d, radix: grammar::radix_of(radix) })
                    && final(self).pos() == q,
            },
    {
        let mut saw_digit = false;
        proof {
            Self::lemma_moved_refl(*self);
            assert(buf@ =~= old(buf)@ + self.input().subrange(self.pos(), self.pos()));
        }
        loop
            invariant
                old(self).wf(),
                Self::moved(*old(self), *self, grammar::no_warnings()),
                Self::line_flag_kept(*old(self), *self),
                radix == 2 || radix == 8 || radix == 10 || radix == 16,
                grammar::digit_scan(self.input(), self.pos(), radix) == grammar::digit_scan(old(self).input(), old(self).pos(), radix),
                buf@ == old(buf)@ + self.input().subrange(old(self).pos(), self.pos()),
                saw_digit == (self.pos() > old(self).pos()),
            ensures
                Self::moved(*old(self), *self, grammar::no_warnings()),
                Self::line_flag_kept(*old(self), *self),
                grammar::digit_scan(old(self).input(), old(self).pos(), radix) == Ok::<int, (u32, int)>(self.pos()),
                buf@ == old(buf)@ + self.input().subrange(old(self).pos(), self.pos()),
                saw_digit == (self.pos() > old(self).pos()),
            decreases self.input().len() - self.pos(),
        {
            match self.peek() {
                None => break,
                Some(c) => match hex_digit(c) {
                    None => break,
                    Some(d) => {
                        if d < radix {
                            let ghost before = *self;
                            self.next_char();
                            buf.push(c);
                            saw_digit = true;
                            proof {
                                Self::lemma_chain(*old(self), before, *self, grammar::no_warnings(), grammar::no_warnings());
                                assert(buf@ =~= old(buf)@ + self.input().subrange(old(self).pos(), self.pos()));
                            }
                        } else if d == 11 || d == 14 || d == 15 {
                            break;
                        } else {
                            return Err(LexError::InvalidDigit { digit: d, radix: radix_name(radix) });
                        }
                    },
                },
            }
        }
        Ok(saw_digit)
    }

    /// The exponent of a floating constant, appended to `buf`.
    fn parse_exponent(&mut self, hex: bool, buf: Vec<u8>) -> (r: Result<Vec<u8>, LexError>)
        requires
            old(self).wf(),
        ensures
            Self::moved(*old(self), *final(self), grammar::no_warnings()),
            Self::line_flag_kept(*old(self), *final(self)),
            bytes_result_matches(r, grammar::exponent_scan(old(self).input(), old(self).pos(), hex, buf@).0),
            final(self).pos() == grammar::exponent_scan(old(self).input(), old(self).pos(), hex, buf@).1,
    {
        let ghost s = self.input();
        let ghost x = self.pos();
        let mut buf = buf;
        proof {
            Self::lemma_moved_refl(*self);
        }
        let ghost before = *self;
        let marker = if hex {
            if self.match_next(0x70u8) {
                true
            } else {
                self.match_next(0x50u8)
            }
        } else {
            if self.match_next(0x65u8) {
                true
            } else {
                self.match_next(0x45u8)
            }
        };
        proof {
            Self::lemma_chain(*old(self), before, *self, grammar::no_warnings(), grammar::no_warnings());
        }
        if marker {
            match self.peek() {
                Some(c) => {
                    if is_exponent_start_byte(c) {
                        buf.push(if hex { 0x70u8 } else { 0x65u8 });
                        let ghost before2 = *self;
                        self.next_char();
                        buf.push(c);
                        proof {
                            Self::lemma_chain(*old(self), before2, *self, grammar::no_warnings(), grammar::no_warnings());
                        }
                    } else {
                        return Err(LexError::ExponentMissingDigits);
                    }
                },
                None => {
                    return Err(LexError::ExponentMissingDigits);
                },
            }
        }
        let ghost y = self.pos();
        let ghost buf0 = buf@;
        proof {
            assert(buf@ =~= buf0 + s.subrange(y, self.pos()));
        }
        loop
            invariant
                old(self).wf(),
                Self::moved(*old(self), *self, grammar::no_warnings()),
                Self::line_flag_kept(*old(self), *self),
                s == self.input(),
                0 <= y <= self.pos() <= s.len(),
                grammar::decimal_end(s, self.pos()) == grammar::decimal_end(s, y),
                buf@ == buf0 + s.subrange(y, self.pos()),
            ensures
                Self::moved(*old(self), *self, grammar::no_warnings()),
                Self::line_flag_kept(*old(self), *self),
                self.pos() == grammar::decimal_end(s, y),
                buf@ == buf0 + s.subrange(y, self.pos()),
            decreases self.input().len() - self.pos(),
        {
            match self.peek() {
                Some(c) => {
                    if is_digit_byte(c) {
                        let ghost before3 = *self;
                        self.next_char();
                        buf.push(c);
                        proof {
                            Self::lemma_chain(*old(self), before3, *self, grammar::no_warnings(), grammar::no_warnings());
                            assert(c == s[before3.pos()]);
                            assert(self.pos() == before3.pos() + 1);
                            assert(s.subrange(y, self.pos()) =~= s.subrange(y, before3.pos()).push(c));
                            assert(buf@ =~= buf0 + s.subrange(y, self.pos()));
                        }
                    } else {
                        break;
                    }
                },
                None => break,
            }
        }
        proof {
            if marker {
                assert(buf@ =~= buf0 + s.subrange(y, self.pos()));
            } else {
                assert(buf@ =~= buf0 + s.subrange(x, self.pos()));
            }
        }
        Ok(buf)
    }

    /// Skip the suffix of a floating constant (`f`, `F`, `l` or `L`), which is ignored.
    fn consume_float_suffix(&mut self)
        requires
            old(self).wf(),
        ensures
            Self::moved(*old(self), *final(self), grammar::no_warnings()),
            Self::line_flag_kept(*old(self), *final(self)),
            final(self).pos() == grammar::float_suffix_end(old(self).input(), old(self).pos()),
    {
        let ghost a = *self;
        if !self.match_next(0x66u8) {
            let ghost b = *self;
            if !self.match_next(0x46u8) {
                let ghost c = *self;
                if !self.match_next(0x6cu8) {
                    let ghost d = *self;
                    self.match_next(0x4cu8);
                    proof {
                        Self::lemma_chain(c, d, *self, grammar::no_warnings(), grammar::no_warnings());
                    }
                }
                proof {
                    Self::lemma_chain(b, c, *self, grammar::no_warnings(), grammar::no_warnings());
                }
            }
            proof {
                Self::lemma_chain(a, b, *self, grammar::no_warnings(), grammar::no_warnings());
            }
        }
    }

    /// The fraction and exponent of a floating constant, after its `.`;
    /// `buf` is its spelling so far. Gives the normalised spelling.
    fn parse_float(&mut self, radix: u32, buf: Vec<u8>) -> (r: Result<Vec<u8>, LexError>)
        requires
            old(self).wf(),
        ensures
            Self::moved(*old(self), *final(self), grammar::no_warnings()),
            Self::line_flag_kept(*old(self), *final(self)),
            bytes_result_matches(r, grammar::fraction_scan(old(self).input(), old(self).pos(), radix, buf@).0),
            final(self).pos() == grammar::fraction_scan(old(self).input(), old(self).pos(), radix, buf@).1,
    {
        let ghost s = self.input();
        let ghost f = self.pos();
        let mut buf = buf;
        buf.push(0x2eu8);
        let ghost buf0 = buf@;
        proof {
            Self::lemma_moved_refl(*self);
            assert(buf@ =~= buf0 + s.subrange(f, self.pos()));
        }
        loop
            invariant
                old(self).wf(),
                Self::moved(*old(self), *self, grammar::no_warnings()),
                Self::line_flag_kept(*old(self), *self),
                s == self.input(),
                0 <= f <= self.pos() <= s.len(),
                grammar::radix_end(s, self.pos(), radix) == grammar::radix_end(s, f, radix),
                buf@ == buf0 + s.subrange(f, self.pos()),
            ensures
                Self::moved(*old(self), *self, grammar::no_warnings()),
                Self::line_flag_kept(*old(self), *self),
                self.pos() == grammar::radix_end(s, f, radix),
                buf@ == buf0 + s.subrange(f, self.pos()),
            decreases self.input().len() - self.pos(),
        {
            match self.peek() {
                Some(c) => {
                    if is_radix_digit_byte(c, radix) {
                        let ghost before = *self;
                        self.next_char();
                        buf.push(c);
                        proof {
                            Self::lemma_chain(*old(self), before, *self, grammar::no_warnings(), grammar::no_warnings());
                            assert(buf@ =~= buf0 + s.subrange(f, self.pos()));
                        }
                    } else {
                        break;
                    }
                },
                None => break,
            }
        }
        let ghost b1 = *self;
        let float = self.parse_exponent(radix == 16, buf);
        let ghost b2 = *self;
        self.consume_float_suffix();
        proof {
            Self::lemma_chain(*old(self), b1, b2, grammar::no_warnings(), grammar::no_warnings());
            Self::lemma_chain(*old(self), b2, *self, grammar::no_warnings(), grammar::no_warnings());
        }
        float
    }

    /// The input bytes from `a` to `b`.
    fn input_range(&self, a: u32, b: u32) -> (r: Vec<u8>)
        requires
            self.wf(),
            a <= b <= self.input().len(),
        ensures
            r@ == self.input().subrange(a as int, b as int),
    {
        let mut r: Vec<u8> = Vec::new();
        let mut i = a as usize;
        while i < b as usize
            invariant
                self.wf(),
                a <= i <= b <= self.input().len(),
                r@ == self.input().subrange(a as int, i as int),
            decreases b - i,
        {
            r.push(self.chars[i]);
            i = i + 1;
            proof {
                assert(r@ =~= self.input().subrange(a as int, i as int));
            }
        }
        r
    }

    /// Parse a number literal, given its first digit, which was just read.
    ///
    /// Integer constants keep their spelling; floating constants are normalised to a
    /// spelling that a float parser accepts. A binary constant gives a warning.
    fn parse_num(&mut self, start: u8) -> (r: Result<Token, LexError>)
        requires
            old(self).wf(),
            old(self).pos() >= 1,
            old(self).input()[old(self).pos() - 1] == start,
            grammar::is_digit(start),
        ensures
            Self::moved(*old(self), *final(self), grammar::number_scan(old(self).input(), old(self).pos() - 1).2),
            Self::line_flag_kept(*old(self), *final(self)),
            token_result_matches(r, grammar::number_scan(old(self).input(), old(self).pos() - 1).0),
            final(self).pos() == grammar::number_scan(old(self).input(), old(self).pos() - 1).1,
    {
        let ghost s = self.input();
        let ghost p = self.pos() - 1;
        let span_start = self.location.offset - 1;
        let mut buf: Vec<u8> = Vec::new();
        buf.push(start);
        proof {
            Self::lemma_moved_refl(*self);
        }
        let ghost b0 = *self;
        let radix: u32 = if start == 0x30u8 {
            if self.match_next(0x62u8) {
                2
            } else if self.match_next(0x78u8) {
                buf.push(0x78u8);
                16
            } else if self.match_next(0x2eu8) {
                proof {
                    Self::lemma_chain(*old(self), b0, *self, grammar::no_warnings(), grammar::no_warnings());
                    assert(buf@ =~= seq![0x30u8]);
                }
                let ghost b1 = *self;
                let f = self.parse_float(10, buf);
                proof {
                    Self::lemma_chain(*old(self), b1, *self, grammar::no_warnings(), grammar::no_warnings());
                }
                return match f {
                    Ok(b) => Ok(Token::Literal(LiteralToken::Float(b))),
                    Err(e) => Err(e),
                };
            } else {
                8
            }
        } else {
            10
        };
        proof {
            Self::lemma_chain(*old(self), b0, *self, grammar::no_warnings(), grammar::no_warnings());
            assert(buf@ =~= s.subrange(p, p + 1) + (if radix == 16 { seq![0x78u8] } else { Seq::<u8>::empty() }));
        }
        let ghost b1 = *self;
        let r = self.parse_num_rest(span_start, radix, buf);
        proof {
            Self::lemma_chain(*old(self), b1, *self, grammar::no_warnings(), grammar::number_rest(s, p, b1.pos(), radix).2);
        }
        r
    }

    /// The digits of a numeric constant in base `radix` and what follows them.
    /// The constant starts at `span_start`; `buf` holds its first digit (and `x` for hex).
    fn parse_num_rest(&mut self, span_start: u32, radix: u32, buf: Vec<u8>) -> (r: Result<Token, LexError>)
        requires
            old(self).wf(),
            span_start < old(self).pos(),
            radix == 2 || radix == 8 || radix == 10 || radix == 16,
            buf@ == old(self).input().subrange(span_start as int, span_start + 1) + (if radix == 16 {
                seq![0x78u8]
            } else {
                Seq::<u8>::empty()
            }),
        ensures
            Self::moved(*old(self), *final(self), grammar::number_rest(old(self).input(), span_start as int, old(self).pos(), radix).2),
            Self::line_flag_kept(*old(self), *final(self)),
            token_result_matches(r, grammar::number_rest(old(self).input(), span_start as int, old(self).pos(), radix).0),
            final(self).pos() == grammar::number_rest(old(self).input(), span_start as int, old(self).pos(), radix).1,
    {
        let ghost s = self.input();
        let ghost r0 = self.pos();
        let mut buf = buf;
        let saw_digit = match self.parse_int(radix, &mut buf) {
            Ok(saw) => saw,
            Err(e) => {
                return Err(e);
            },
        };
        let ghost e = self.pos();
        if !saw_digit && !(radix == 8 || radix == 10 || self.peek() == Some(0x2eu8)) {
            return Err(LexError::MissingDigits(if radix == 2 { Radix::Binary } else { Radix::Hexadecimal }));
        }
        let ghost b1 = *self;
        let r = self.parse_num_tail(span_start, radix, buf);
        proof {
            Self::lemma_chain(*old(self), b1, *self, grammar::no_warnings(), grammar::number_tail(s, span_start as int, e, radix, buf@).2);
        }
        r
    }

    /// What follows the digits of a numeric constant starting at `span_start`:
    /// a fraction, an exponent, or integer suffixes.
    fn parse_num_tail(&mut self, span_start: u32, radix: u32, buf: Vec<u8>) -> (r: Result<Token, LexError>)
        requires
            old(self).wf(),
            span_start < old(self).pos(),
        ensures
            Self::moved(*old(self), *final(self), grammar::number_tail(old(self).input(), span_start as int, old(self).pos(), radix, buf@).2),
            Self::line_flag_kept(*old(self), *final(self)),
            token_result_matches(r, grammar::number_tail(old(self).input(), span_start as int, old(self).pos(), radix, buf@).0),
            final(self).pos() == grammar::number_tail(old(self).input(), span_start as int, old(self).pos(), radix, buf@).1,
    {
        let ghost s = self.input();
        let ghost p = span_start as int;
        let mut buf = buf;
        proof {
            Self::lemma_moved_refl(*self);
        }
        let ghost b2 = *self;
        if self.match_next(0x2eu8) {
            let ghost b3 = *self;
            let f = self.parse_float(radix, buf);
            proof {
                Self::lemma_chain(*old(self), b3, *self, grammar::no_warnings(), grammar::no_warnings());
            }
            return match f {
                Ok(b) => Ok(Token::Literal(LiteralToken::Float(b))),
                Err(e) => Err(e),
            };
        }
        match self.peek() {
            Some(c) => {
                if c == 0x65u8 || c == 0x45u8 || c == 0x70u8 || c == 0x50u8 {
                    let ghost buf0 = buf@;
                    buf.push(0x2eu8);
                    buf.push(0x30u8);
                    proof {
                        assert(buf@ =~= buf0 + seq![0x2eu8, 0x30u8]);
                    }
                    let f = self.parse_exponent(radix == 16, buf);
                    let ghost b4 = *self;
                    self.consume_float_suffix();
                    proof {
                        Self::lemma_chain(*old(self), b4, *self, grammar::no_warnings(), grammar::no_warnings());
                    }
                    return match f {
                        Ok(b) => Ok(Token::Literal(LiteralToken::Float(b))),
                        Err(e) => Err(e),
                    };
                }
            },
            None => {},
        }
        let digits_end = self.location.offset;
        let unsigned = if self.match_next(0x75u8) {
            true
        } else {
            self.match_next(0x55u8)
        };
        let ghost b4 = *self;
        proof {
            Self::lemma_chain(*old(self), b2, b4, grammar::no_warnings(), grammar::no_warnings());
        }
        if self.match_next(0x6cu8) {
            let ghost b5 = *self;
            self.match_next(0x6cu8);
            proof {
                Self::lemma_chain(b4, b5, *self, grammar::no_warnings(), grammar::no_warnings());
            }
        } else if self.match_next(0x4cu8) {
            let ghost b5 = *self;
            self.match_next(0x4cu8);
            proof {
                Self::lemma_chain(b4, b5, *self, grammar::no_warnings(), grammar::no_warnings());
            }
        }
        proof {
            Self::lemma_chain(*old(self), b4, *self, grammar::no_warnings(), grammar::no_warnings());
        }
        let spelling = self.input_range(span_start, digits_end);
        let literal = if unsigned {
            LiteralToken::UnsignedInt(spelling)
        } else {
            LiteralToken::Int(spelling)
        };
        if radix == 2 {
            let span = self.span(span_start);
            self.error_handler.warn(Warning::BinaryLiteral, span);
            proof {
                let w = seq![(Warning::BinaryLiteral, p, self.pos())];
                assert(located_warnings(w, self.location.file) =~= seq![Locatable { data: Warning::BinaryLiteral, location: span }]);
                assert(self.error_handler.warnings_view() =~= old(self).error_handler.warnings_view() + located_warnings(w, self.location.file));
            }
        }
        Ok(Token::Literal(literal))
    }

    /// Read a logical character of a character or string literal: a byte, or an escape
    /// sequence after a backslash. A backslash before a newline is skipped with it.
    /// An unknown escape gives a warning and stands for the byte after the backslash.
    fn parse_single_char(&mut self, string: bool) -> (r: Result<u8, CharError>)
        requires
            old(self).wf(),
        ensures
            Self::moved(*old(self), *final(self), grammar::single_char(old(self).input(), old(self).pos(), string).2),
            Self::line_flag_kept(*old(self), *final(self)),
            r == grammar::single_char(old(self).input(), old(self).pos(), string).0,
            final(self).pos() == grammar::single_char(old(self).input(), old(self).pos(), string).1,
        decreases old(self).input().len() - old(self).pos(),
    {
        let ghost s = self.input();
        let ghost i = self.pos();
        let terminator = if string { 0x22u8 } else { 0x27u8 };
        proof {
            Self::lemma_moved_refl(*self);
        }
        let ghost b0 = *self;
        let c = match self.next_char() {
            Some(c) => c,
            None => {
                return Err(CharError::Eof);
            },
        };
        proof {
            Self::lemma_chain(*old(self), b0, *self, grammar::no_warnings(), grammar::no_warnings());
        }
        if c == 0x5cu8 {
            let ghost b1 = *self;
            let e = match self.next_char() {
                Some(e) => e,
                None => {
                    proof {
                        Self::lemma_chain(*old(self), b1, *self, grammar::no_warnings(), grammar::no_warnings());
                    }
                    return Err(CharError::Eof);
                },
            };
            proof {
                Self::lemma_chain(*old(self), b1, *self, grammar::no_warnings(), grammar::no_warnings());
            }
            if e == 0x0au8 {
                let ghost b2 = *self;
                let r = self.parse_single_char(string);
                proof {
                    Self::lemma_chain(*old(self), b2, *self, grammar::no_warnings(), grammar::single_char(s, i + 2, string).2);
                }
                return r;
            }
            match escape_byte(e) {
                Some(v) => {
                    return Ok(v);
                },
                None => {},
            }
            if e == 0x78u8 && self.peek_is_hex_digit() {
                let ghost b2 = *self;
                let r = self.parse_hex_escape();
                proof {
                    Self::lemma_chain(*old(self), b2, *self, grammar::no_warnings(), grammar::no_warnings());
                }
                return r;
            }
            if 0x30u8 <= e && e <= 0x37u8 {
                let ghost b2 = *self;
                let r = self.parse_octal_escape(e);
                proof {
                    Self::lemma_chain(*old(self), b2, *self, grammar::no_warnings(), grammar::no_warnings());
                }
                return r;
            }
            let span = self.span(self.location.offset - 1);
            self.error_handler.warn(Warning::UnknownCharEscape(e), span);
            proof {
                let w = seq![(Warning::UnknownCharEscape(e), i + 1, i + 2)];
                assert(located_warnings(w, self.location.file) =~= seq![Locatable { data: Warning::UnknownCharEscape(e), location: span }]);
                assert(self.error_handler.warnings_view() =~= old(self).error_handler.warnings_view() + located_warnings(w, self.location.file));
            }
            Ok(e)
        } else if c == 0x0au8 {
            Err(CharError::Newline)
        } else if c == terminator {
            Err(CharError::Terminator)
        } else {
            Ok(c)
        }
    }

    fn peek_is_hex_digit(&self) -> (r: bool)
        requires
            self.wf(),
        ensures
            r == (self.pos() < self.input().len() && grammar::is_radix_digit(self.input()[self.pos()], 16)),
    {
        match self.peek() {
            Some(c) => is_radix_digit_byte(c, 16),
            None => false,
        }
    }

    /// The digits of a hexadecimal escape `\x...`, all of them, which start at the
    /// current offset; their value must fit in a byte.
    fn parse_hex_escape(&mut self) -> (r: Result<u8, CharError>)
        requires
            old(self).wf(),
            old(self).pos() >= 2,
            old(self).pos() < old(self).input().len(),
            grammar::is_radix_digit(old(self).input()[old(self).pos()], 16),
        ensures
            Self::moved(*old(self), *final(self), grammar::no_warnings()),
            Self::line_flag_kept(*old(self), *final(self)),
            final(self).pos() == grammar::radix_end(old(self).input(), old(self).pos(), 16),
            r == if grammar::digits_value(old(self).input().subrange(old(self).pos(), final(self).pos()), 16) > 255 {
                Err::<u8, CharError>(CharError::OutOfRange(Radix::Hexadecimal))
            } else {
                Ok::<u8, CharError>(grammar::digits_value(old(self).input().subrange(old(self).pos(), final(self).pos()), 16) as u8)
            },
    {
        let ghost s = self.input();
        let ghost k0 = self.pos();
        let mut acc: u32 = 0;
        let mut out = false;
        proof {
            Self::lemma_moved_refl(*self);
            assert(s.subrange(k0, k0) =~= Seq::<u8>::empty());
        }
        loop
            invariant
                old(self).wf(),
                Self::moved(*old(self), *self, grammar::no_warnings()),
                Self::line_flag_kept(*old(self), *self),
                s == self.input(),
                0 <= k0 <= self.pos() <= s.len(),
                grammar::radix_end(s, self.pos(), 16) == grammar::radix_end(s, k0, 16),
                out == (grammar::digits_value(s.subrange(k0, self.pos()), 16) > 255),
                !out ==> acc == grammar::digits_value(s.subrange(k0, self.pos()), 16),
            ensures
                Self::moved(*old(self), *self, grammar::no_warnings()),
                Self::line_flag_kept(*old(self), *self),
                self.pos() == grammar::radix_end(s, k0, 16),
                out == (grammar::digits_value(s.subrange(k0, self.pos()), 16) > 255),
                !out ==> acc == grammar::digits_value(s.subrange(k0, self.pos()), 16),
            decreases self.input().len() - self.pos(),
        {
            let ghost k = self.pos();
            let d = match self.peek() {
                Some(c) => match hex_digit(c) {
                    Some(d) => d,
                    None => break,
                },
                None => break,
            };
            let ghost before = *self;
            self.next_char();
            proof {
                Self::lemma_chain(*old(self), before, *self, grammar::no_warnings(), grammar::no_warnings());
                assert(s.subrange(k0, k + 1) =~= s.subrange(k0, k).push(s[k]));
                lemma_digits_value_push(s.subrange(k0, k), s[k], 16);
                lemma_digits_value_nonneg(s.subrange(k0, k), 16);
            }
            if !out {
                acc = acc * 16 + d;
                if acc > 255 {
                    out = true;
                }
            }
        }
        if out {
            Err(CharError::OutOfRange(Radix::Hexadecimal))
        } else {
            Ok(acc as u8)
        }
    }

    /// An octal escape: the digit `first`, just read, and at most two more.
    fn parse_octal_escape(&mut self, first: u8) -> (r: Result<u8, CharError>)
        requires
            old(self).wf(),
            old(self).pos() >= 1,
            old(self).input()[old(self).pos() - 1] == first,
            grammar::is_octal(first),
        ensures
            Self::moved(*old(self), *final(self), grammar::no_warnings()),
            Self::line_flag_kept(*old(self), *final(self)),
            final(self).pos() == grammar::octal_escape_end(old(self).input(), old(self).pos() - 1),
            r == if grammar::digits_value(old(self).input().subrange(old(self).pos() - 1, final(self).pos()), 8) > 255 {
                Err::<u8, CharError>(CharError::OutOfRange(Radix::Octal))
            } else {
                Ok::<u8, CharError>(grammar::digits_value(old(self).input().subrange(old(self).pos() - 1, final(self).pos()), 8) as u8)
            },
    {
        let ghost s = self.input();
        let ghost k0 = self.pos() - 1;
        let mut v: u32 = (first - 0x30u8) as u32;
        proof {
            Self::lemma_moved_refl(*self);
            assert(s.subrange(k0, k0 + 1) =~= Seq::<u8>::empty().push(first));
            lemma_digits_value_push(Seq::<u8>::empty(), first, 8);
        }
        let mut n: u32 = 1;
        while n < 3
            invariant
                old(self).wf(),
                Self::moved(*old(self), *self, grammar::no_warnings()),
                Self::line_flag_kept(*old(self), *self),
                s == self.input(),
                1 <= n <= 3,
                self.pos() == k0 + n,
                0 <= k0,
                self.pos() <= s.len(),
                forall|m: int| k0 + 1 <= m < self.pos() ==> grammar::is_octal(#[trigger] s[m]),
                v == grammar::digits_value(s.subrange(k0, self.pos()), 8),
                v < 8 * 8 * 8,
                v < if n == 1 { 8int } else if n == 2 { 64int } else { 512int },
            ensures
                Self::moved(*old(self), *self, grammar::no_warnings()),
                Self::line_flag_kept(*old(self), *self),
                self.pos() == grammar::octal_escape_end(s, k0),
                v == grammar::digits_value(s.subrange(k0, self.pos()), 8),
            decreases 3 - n,
        {
            let ghost k = self.pos();
            match self.peek() {
                Some(c) => {
                    if 0x30u8 <= c && c <= 0x37u8 {
                        let ghost before = *self;
                        self.next_char();
                        proof {
                            Self::lemma_chain(*old(self), before, *self, grammar::no_warnings(), grammar::no_warnings());
                            assert(s.subrange(k0, k + 1) =~= s.subrange(k0, k).push(c));
                            lemma_digits_value_push(s.subrange(k0, k), c, 8);
                        }
                        v = v * 8 + (c - 0x30u8) as u32;
                        n = n + 1;
                    } else {
                        break;
                    }
                },
                None => break,
            }
        }
        if v > 255 {
            Err(CharError::OutOfRange(Radix::Octal))
        } else {
            Ok(v as u8)
        }
    }

    /// Skip the rest of a malformed character literal, up to and including its closing
    /// quote.
    fn consume_until_quote(&mut self)
        requires
            old(self).wf(),
        ensures
            Self::moved(*old(self), *final(self), grammar::until_quote(old(self).input(), old(self).pos()).1),
            Self::line_flag_kept(*old(self), *final(self)),
            final(self).pos() == grammar::until_quote(old(self).input(), old(self).pos()).0,
    {
        let ghost s = self.input();
        let ghost i = self.pos();
        let ghost mut wacc: Warnings = grammar::no_warnings();
        proof {
            Self::lemma_moved_refl(*self);
            assert(wacc + grammar::until_quote(s, i).1 =~= grammar::until_quote(s, i).1);
        }
        loop
            invariant_except_break
                Self::moved(*old(self), *self, wacc),
                grammar::until_quote(s, self.pos()).0 == grammar::until_quote(s, i).0,
                wacc + grammar::until_quote(s, self.pos()).1 == grammar::until_quote(s, i).1,
            invariant
                old(self).wf(),
                Self::line_flag_kept(*old(self), *self),
                s == self.input(),
                i == old(self).pos(),
            ensures
                Self::moved(*old(self), *self, grammar::until_quote(s, i).1),
                Self::line_flag_kept(*old(self), *self),
                self.pos() == grammar::until_quote(s, i).0,
            decreases self.input().len() - self.pos(),
        {
            let ghost b = *self;
            let ghost k = self.pos();
            let r = self.parse_single_char(false);
            proof {
                Self::lemma_chain(*old(self), b, *self, wacc, grammar::single_char(s, k, false).2);
                grammar::lemma_single_char_bounds(s, k, false);
            }
            match r {
                Ok(c) => {
                    if c == 0x27u8 {
                        proof {
                            assert(wacc + grammar::single_char(s, k, false).2 == grammar::until_quote(s, i).1);
                            assert(self.pos() == grammar::until_quote(s, i).0);
                        }
                        break;
                    } else {
                        proof {
                            let w = grammar::single_char(s, k, false).2;
                            assert(wacc + w + grammar::until_quote(s, self.pos()).1 =~= wacc + (w + grammar::until_quote(s, self.pos()).1));
                            wacc = wacc + w;
                        }
                    }
                },
                Err(_) => {
                    proof {
                        assert(wacc + grammar::single_char(s, k, false).2 == grammar::until_quote(s, i).1);
                        assert(self.pos() == grammar::until_quote(s, i).0);
                    }
                    break;
                },
            }
        }
    }

    /// Whether the next logical character is written as a hexadecimal or octal escape.
    fn starts_numeric_escape(&self) -> (r: bool)
        requires
            self.wf(),
        ensures
            r == grammar::numeric_escape(self.input(), self.pos()),
    {
        let n = self.chars.len();
        let mut p: usize = self.location.offset as usize;
        while p + 1 < n && self.chars[p] == 0x5cu8 && self.chars[p + 1] == 0x0au8
            invariant
                n == self.chars@.len(),
                n < u32::MAX,
                self.pos() <= p <= n,
                grammar::char_start(self.chars@, p as int) == grammar::char_start(self.chars@, self.pos()),
            decreases n - p,
        {
            p = p + 2;
        }
        p + 1 < n && self.chars[p] == 0x5cu8 && (self.chars[p + 1] == 0x78u8 || (0x30u8 <= self.chars[p + 1]
            && self.chars[p + 1] <= 0x37u8))
    }

    /// Parse a character literal, starting after the opening quote.
    fn parse_char(&mut self) -> (r: Result<Token, LexError>)
        requires
            old(self).wf(),
        ensures
            Self::moved(*old(self), *final(self), grammar::char_scan(old(self).input(), old(self).pos()).2),
            Self::line_flag_kept(*old(self), *final(self)),
            token_result_matches(r, grammar::char_scan(old(self).input(), old(self).pos()).0),
            final(self).pos() == grammar::char_scan(old(self).input(), old(self).pos()).1,
    {
        let ghost s = self.input();
        let ghost i = self.pos();
        let ghost b0 = *self;
        let numeric = self.starts_numeric_escape();
        let first = self.parse_single_char(false);
        let ghost j = self.pos();
        let ghost w = grammar::single_char(s, i, false).2;
        proof {
            grammar::lemma_single_char_bounds(s, i, false);
        }
        match first {
            Ok(c) if c >= 0x80u8 && !numeric => {
                let ghost b2 = *self;
                self.consume_until_quote();
                proof {
                    Self::lemma_chain(*old(self), b2, *self, w, grammar::until_quote(s, j).1);
                }
                Err(LexError::MultiByteCharLiteral)
            },
            Ok(c) => {
                let ghost b1 = *self;
                let next = self.next_char();
                proof {
                    Self::lemma_chain(*old(self), b1, *self, w, grammar::no_warnings());
                }
                match next {
                    Some(d) => {
                        if d == 0x27u8 {
                            Ok(Token::Literal(LiteralToken::Char(c)))
                        } else if d == 0x0au8 {
                            Err(LexError::NewlineInChar)
                        } else {
                            let ghost b2 = *self;
                            self.consume_until_quote();
                            proof {
                                Self::lemma_chain(*old(self), b2, *self, w, grammar::until_quote(s, j + 1).1);
                            }
                            Err(LexError::MultiCharCharLiteral)
                        }
                    },
                    None => Err(LexError::MissingEndQuote { string: false }),
                }
            },
            Err(CharError::Eof) => Err(LexError::MissingEndQuote { string: false }),
            Err(CharError::Newline) => Err(LexError::NewlineInChar),
            Err(CharError::Terminator) => Err(LexError::EmptyChar),
            Err(CharError::OutOfRange(radix)) => {
                let ghost b2 = *self;
                self.consume_until_quote();
                proof {
                    Self::lemma_chain(*old(self), b2, *self, w, grammar::until_quote(s, j).1);
                }
                Err(LexError::CharEscapeOutOfRange(radix))
            },
        }
    }

    /// Parse adjacent string literals, starting at the opening quote of the first.
    ///
    /// Their bytes are joined, and a terminating zero byte is added.
    fn parse_string(&mut self) -> (r: Result<Token, LexError>)
        requires
            old(self).wf(),
        ensures
            Self::moved(*old(self), *final(self), grammar::string_scan(old(self).input(), old(self).pos(), Seq::empty()).2),
            Self::line_flag_kept(*old(self), *final(self)),
            match grammar::string_scan(old(self).input(), old(self).pos(), Seq::empty()).0 {
                Ok(b) => r matches Ok(Token::Literal(LiteralToken::Str(v))) && v@ == b,
                Err(e) => r == Err::<Token, LexError>(e),
            },
            final(self).pos() == grammar::string_scan(old(self).input(), old(self).pos(), Seq::empty()).1,
    {
        let ghost s = self.input();
        let ghost i = self.pos();
        let ghost full = grammar::string_scan(s, i, Seq::empty());
        let mut literal: Vec<u8> = Vec::new();
        let ghost mut wacc: Warnings = grammar::no_warnings();
        proof {
            Self::lemma_moved_refl(*self);
            assert(wacc + full.2 =~= full.2);
        }
        loop
            invariant
                old(self).wf(),
                Self::moved(*old(self), *self, wacc),
                Self::line_flag_kept(*old(self), *self),
                s == self.input(),
                full == grammar::string_scan(s, i, Seq::empty()),
                i == old(self).pos(),
                grammar::string_scan(s, self.pos(), literal@).0 == full.0,
                grammar::string_scan(s, self.pos(), literal@).1 == full.1,
                wacc + grammar::string_scan(s, self.pos(), literal@).2 == full.2,
            ensures
                Self::moved(*old(self), *self, wacc),
                Self::line_flag_kept(*old(self), *self),
                s == self.input(),
                !grammar::is_at(s, self.pos(), 0x22u8),
                grammar::string_scan(s, self.pos(), literal@).0 == full.0,
                grammar::string_scan(s, self.pos(), literal@).1 == full.1,
                wacc + grammar::string_scan(s, self.pos(), literal@).2 == full.2,
            decreases self.input().len() - self.pos(),
        {
            if self.peek() != Some(0x22u8) {
                break;
            }
            let ghost b0 = *self;
            self.next_char();
            proof {
                Self::lemma_chain(*old(self), b0, *self, wacc, grammar::no_warnings());
            }
            loop
                invariant_except_break
                    grammar::string_body(s, self.pos(), literal@).0 == full.0,
                    grammar::string_body(s, self.pos(), literal@).1 == full.1,
                    wacc + grammar::string_body(s, self.pos(), literal@).2 == full.2,
                invariant
                    old(self).wf(),
                    Self::moved(*old(self), *self, wacc),
                    Self::line_flag_kept(*old(self), *self),
                    s == self.input(),
                    full == grammar::string_scan(s, i, Seq::empty()),
                    i == old(self).pos(),
                    b0.pos() < self.pos(),
                ensures
                    Self::moved(*old(self), *self, wacc),
                    Self::line_flag_kept(*old(self), *self),
                    s == self.input(),
                    b0.pos() < self.pos(),
                    grammar::string_scan(s, grammar::space_end(s, self.pos()), literal@).0 == full.0,
                    grammar::string_scan(s, grammar::space_end(s, self.pos()), literal@).1 == full.1,
                    wacc + grammar::string_scan(s, grammar::space_end(s, self.pos()), literal@).2 == full.2,
                decreases self.input().len() - self.pos(),
            {
                let ghost b = *self;
                let ghost k = self.pos();
                let ghost acc = literal@;
                let r = self.parse_single_char(true);
                let ghost w = grammar::single_char(s, k, true).2;
                proof {
                    Self::lemma_chain(*old(self), b, *self, wacc, w);
                    grammar::lemma_single_char_bounds(s, k, true);
                }
                match r {
                    Ok(c) => {
                        literal.push(c);
                        proof {
                            assert(wacc + w + grammar::string_body(s, self.pos(), literal@).2 =~= wacc + (w + grammar::string_body(s, self.pos(), literal@).2));
                            wacc = wacc + w;
                        }
                    },
                    Err(CharError::Eof) => {
                        proof {
                            assert(grammar::string_body(s, k, acc) == (Err::<Seq<u8>, LexError>(LexError::MissingEndQuote { string: true }), self.pos(), w));
                        }
                        return Err(LexError::MissingEndQuote { string: true });
                    },
                    Err(CharError::Newline) => {
                        return Err(LexError::NewlineInString);
                    },
                    Err(CharError::Terminator) => {
                        proof {
                            assert(wacc + w + grammar::string_scan(s, grammar::space_end(s, self.pos()), literal@).2 =~= wacc + (w + grammar::string_scan(s, grammar::space_end(s, self.pos()), literal@).2));
                            wacc = wacc + w;
                        }
                        break;
                    },
                    Err(CharError::OutOfRange(radix)) => {
                        return Err(LexError::CharEscapeOutOfRange(radix));
                    },
                }
            }
            let ghost b1 = *self;
            self.consume_whitespace();
            proof {
                Self::lemma_chain(*old(self), b1, *self, wacc, grammar::no_warnings());
            }
        }
        literal.push(0u8);
        proof {
            assert(wacc + grammar::no_warnings() =~= wacc);
        }
        Ok(Token::Literal(LiteralToken::Str(literal)))
    }

    /// Parse an identifier, given its first letter, which was just read.
    ///
    /// Identifiers match the regex `[a-zA-Z_][a-zA-Z0-9_]*`.
    fn parse_id(&mut self, start: u8) -> (r: Token)
        requires
            old(self).wf(),
            old(self).pos() >= 1,
            old(self).input()[old(self).pos() - 1] == start,
        ensures
            Self::moved(*old(self), *final(self), grammar::no_warnings()),
            Self::line_flag_kept(*old(self), *final(self)),
            final(self).pos() == grammar::id_end(old(self).input(), old(self).pos()),
            r@ == TokenView::Id(old(self).input().subrange(old(self).pos() - 1, final(self).pos())),
    {
        let ghost s = self.input();
        let ghost p = self.pos() - 1;
        let mut id: Vec<u8> = Vec::new();
        id.push(start);
        proof {
            Self::lemma_moved_refl(*self);
            assert(id@ =~= s.subrange(p, self.pos()));
        }
        loop
            invariant
                old(self).wf(),
                Self::moved(*old(self), *self, grammar::no_warnings()),
                Self::line_flag_kept(*old(self), *self),
                s == self.input(),
                0 <= p < self.pos() <= s.len(),
                grammar::id_end(s, self.pos()) == grammar::id_end(s, p + 1),
                id@ == s.subrange(p, self.pos()),
            ensures
                Self::moved(*old(self), *self, grammar::no_warnings()),
                Self::line_flag_kept(*old(self), *self),
                self.pos() == grammar::id_end(s, p + 1),
                id@ == s.subrange(p, self.pos()),
            decreases self.input().len() - self.pos(),
        {
            match self.peek() {
                Some(c) => {
                    if is_id_char_byte(c) {
                        let ghost before = *self;
                        self.next_char();
                        id.push(c);
                        proof {
                            Self::lemma_chain(*old(self), before, *self, grammar::no_warnings(), grammar::no_warnings());
                            assert(id@ =~= s.subrange(p, self.pos()));
                        }
                    } else {
                        break;
                    }
                },
                None => break,
            }
        }
        Token::Id(id)
    }

    /// The operator or punctuation token that starts with `c`, which was just read;
    /// an unknown byte is an error.
    fn punct(&mut self, c: u8) -> (r: Result<Token, LexError>)
        requires
            old(self).wf(),
            old(self).pos() >= 1,
            old(self).input()[old(self).pos() - 1] == c,
        ensures
            Self::moved(*old(self), *final(self), grammar::no_warnings()),
            Self::line_flag_kept(*old(self), *final(self)),
            token_result_matches(r, grammar::punct_scan(old(self).input(), old(self).pos() - 1).0),
            final(self).pos() == grammar::punct_scan(old(self).input(), old(self).pos() - 1).1,
    {
        proof {
            Self::lemma_moved_refl(*self);
        }
        let next = self.peek();
        if c == 0x23u8 {
            Ok(Token::Hash)
        } else if c == 0x2bu8 {
            if next == Some(0x3du8) {
                self.next_char();
                Ok(Token::Assignment(AssignmentToken::PlusEqual))
            } else if next == Some(0x2bu8) {
                self.next_char();
                Ok(Token::PlusPlus)
            } else {
                Ok(Token::Plus)
            }
        } else if c == 0x2du8 {
            if next == Some(0x3du8) {
                self.next_char();
                Ok(Token::Assignment(AssignmentToken::MinusEqual))
            } else if next == Some(0x2du8) {
                self.next_char();
                Ok(Token::MinusMinus)
            } else if next == Some(0x3eu8) {
                self.next_char();
                Ok(Token::StructDeref)
            } else {
                Ok(Token::Minus)
            }
        } else if c == 0x2au8 {
            if next == Some(0x3du8) {
                self.next_char();
                Ok(Token::Assignment(AssignmentToken::StarEqual))
            } else {
                Ok(Token::Star)
            }
        } else if c == 0x2fu8 {
            if self.match_next(0x3du8) {
                Ok(Token::Assignment(AssignmentToken::DivideEqual))
            } else {
                Ok(Token::Divide)
            }
        } else if c == 0x25u8 {
            if next == Some(0x3du8) {
                self.next_char();
                Ok(Token::Assignment(AssignmentToken::ModEqual))
            } else {
                Ok(Token::Mod)
            }
        } else if c == 0x5eu8 {
            if self.match_next(0x3du8) {
                Ok(Token::Assignment(AssignmentToken::XorEqual))
            } else {
                Ok(Token::Xor)
            }
        } else if c == 0x3du8 {
            if next == Some(0x3du8) {
                self.next_char();
                Ok(Token::Comparison(ComparisonToken::EqualEqual))
            } else {
                Ok(Token::Assignment(AssignmentToken::Equal))
            }
        } else if c == 0x21u8 {
            if next == Some(0x3du8) {
                self.next_char();
                Ok(Token::Comparison(ComparisonToken::NotEqual))
            } else {
                Ok(Token::LogicalNot)
            }
        } else if c == 0x3eu8 {
            if next == Some(0x3du8) {
                self.next_char();
                Ok(Token::Comparison(ComparisonToken::GreaterEqual))
            } else if next == Some(0x3eu8) {
                self.next_char();
                let ghost b = *self;
                let eq = self.match_next(0x3du8);
                proof {
                    Self::lemma_chain(*old(self), b, *self, grammar::no_warnings(), grammar::no_warnings());
                }
                if eq {
                    Ok(Token::Assignment(AssignmentToken::RightEqual))
                } else {
                    Ok(Token::ShiftRight)
                }
            } else {
                Ok(Token::Comparison(ComparisonToken::Greater))
            }
        } else if c == 0x3cu8 {
            if next == Some(0x3du8) {
                self.next_char();
                Ok(Token::Comparison(ComparisonToken::LessEqual))
            } else if next == Some(0x3cu8) {
                self.next_char();
                let ghost b = *self;
                let eq = self.match_next(0x3du8);
                proof {
                    Self::lemma_chain(*old(self), b, *self, grammar::no_warnings(), grammar::no_warnings());
                }
                if eq {
                    Ok(Token::Assignment(AssignmentToken::LeftEqual))
                } else {
                    Ok(Token::ShiftLeft)
                }
            } else {
                Ok(Token::Comparison(ComparisonToken::Less))
            }
        } else if c == 0x26u8 {
            if next == Some(0x26u8) {
                self.next_char();
                Ok(Token::LogicalAnd)
            } else if next == Some(0x3du8) {
                self.next_char();
                Ok(Token::Assignment(AssignmentToken::AndEqual))
            } else {
                Ok(Token::Ampersand)
            }
        } else if c == 0x7cu8 {
            if next == Some(0x7cu8) {
                self.next_char();
                Ok(Token::LogicalOr)
            } else if next == Some(0x3du8) {
                self.next_char();
                Ok(Token::Assignment(AssignmentToken::OrEqual))
            } else {
                Ok(Token::BitwiseOr)
            }
        } else if c == 0x7bu8 {
            Ok(Token::LeftBrace)
        } else if c == 0x7du8 {
            Ok(Token::RightBrace)
        } else if c == 0x28u8 {
            Ok(Token::LeftParen)
        } else if c == 0x29u8 {
            Ok(Token::RightParen)
        } else if c == 0x5bu8 {
            Ok(Token::LeftBracket)
        } else if c == 0x5du8 {
            Ok(Token::RightBracket)
        } else if c == 0x7eu8 {
            Ok(Token::BinaryNot)
        } else if c == 0x3au8 {
            Ok(Token::Colon)
        } else if c == 0x3bu8 {
            Ok(Token::Semicolon)
        } else if c == 0x2cu8 {
            Ok(Token::Comma)
        } else if c == 0x3fu8 {
            Ok(Token::Question)
        } else if c == 0x2eu8 {
            if next == Some(0x2eu8) && self.peek_next() == Some(0x2eu8) {
                self.next_char();
                let ghost b = *self;
                self.next_char();
                proof {
                    Self::lemma_chain(*old(self), b, *self, grammar::no_warnings(), grammar::no_warnings());
                }
                Ok(Token::Ellipsis)
            } else {
                Ok(Token::Dot)
            }
        } else {
            Err(LexError::UnknownToken(c as char))
        }
    }

    /// The token that starts with `c`, which was just read.
    fn lex_token(&mut self, c: u8) -> (r: Result<Token, LexError>)
        requires
            old(self).wf(),
            old(self).pos() >= 1,
            old(self).input()[old(self).pos() - 1] == c,
        ensures
            Self::moved(*old(self), *final(self), grammar::token_scan(old(self).input(), old(self).pos() - 1).2),
            Self::line_flag_kept(*old(self), *final(self)),
            token_result_matches(r, grammar::token_scan(old(self).input(), old(self).pos() - 1).0),
            final(self).pos() == grammar::token_scan(old(self).input(), old(self).pos() - 1).1,
    {
        let ghost s = self.input();
        let ghost p = self.pos() - 1;
        if c == 0x2eu8 && self.peek_is_digit() {
            let empty: Vec<u8> = Vec::new();
            proof {
                assert(empty@ =~= Seq::<u8>::empty());
            }
            let f = self.parse_float(10, empty);
            match f {
                Ok(b) => Ok(Token::Literal(LiteralToken::Float(b))),
                Err(e) => Err(e),
            }
        } else if 0x30u8 <= c && c <= 0x39u8 {
            self.parse_num(c)
        } else if (0x61u8 <= c && c <= 0x7au8) || (0x41u8 <= c && c <= 0x5au8) || c == 0x5fu8 {
            Ok(self.parse_id(c))
        } else if c == 0x27u8 {
            self.parse_char()
        } else if c == 0x22u8 {
            let ghost before = *self;
            proof {
                grammar::lemma_newlines_take_quote(s, p);
            }
            self.location.offset = self.location.offset - 1;
            let ghost mid = *self;
            let r = self.parse_string();
            proof {
                grammar::lemma_string_scan_bounds(s, p, Seq::empty());
                grammar::lemma_string_body_bounds(s, p + 1, Seq::empty());
                Self::lemma_line_monotone(before, *self);
            }
            match r {
                Ok(t) => Ok(t),
                Err(e) => Err(e),
            }
        } else {
            self.punct(c)
        }
    }

    fn peek_is_digit(&self) -> (r: bool)
        requires
            self.wf(),
        ensures
            r == (self.pos() < self.input().len() && grammar::is_digit(self.input()[self.pos()])),
    {
        match self.peek() {
            Some(c) => is_digit_byte(c),
            None => false,
        }
    }

    /// Return the next token in the stream: `None` at the end of input, otherwise a
    /// token or a lexical error, each with the span it covers.
    ///
    /// Whitespace, comments and backslash-newline pairs before the token are skipped.
    /// Once this returns `None` it returns `None` again.
    pub fn next_token(&mut self) -> (r: Option<CompileResult<Locatable<Token>>>)
        requires
            old(self).wf(),
        ensures
            final(self).wf(),
            final(self).input() == old(self).input(),
            final(self).file() == old(self).file(),
            step_matches(r, old(self).input(), old(self).pos(), old(self).file()),
            final(self).pos() == grammar::lex_step(old(self).input(), old(self).pos()).2,
            final(self).errors() == old(self).errors(),
            final(self).warnings() == old(self).warnings() + located_warnings(
                grammar::lex_step(old(self).input(), old(self).pos()).3,
                old(self).file(),
            ),
            final(self).line() == grammar::newlines(final(self).input().take(final(self).pos())),
            final(self).seen_line_token() == ((if final(self).line() > old(self).line() {
                false
            } else {
                old(self).seen_line_token()
            }) || (r matches Some(Ok(t)) && !(t.data is Hash))),
            r is Some ==> final(self).pos() > old(self).pos(),
            r is None ==> final(self).pos() == final(self).input().len(),
            old(self).pos() == old(self).input().len() ==> r is None,
            r matches Some(Ok(t)) ==> old(self).pos() <= t.location.span.start < t.location.span.end
                == final(self).pos(),
    {
        let ghost s = self.input();
        let ghost i = self.pos();
        self.consume_whitespace();
        let ghost p0 = self.pos();
        let ghost mut p = self.pos();
        let ghost b0 = *self;
        let mut c = self.next_char();
        proof {
            Self::lemma_chain(*old(self), b0, *self, grammar::no_warnings(), grammar::no_warnings());
            grammar::lemma_space_end_bounds(s, i);
        }
        // Section 5.1.1.2 phase 2: discard backslashes before newlines
        loop
            invariant
                old(self).wf(),
                Self::moved(*old(self), *self, grammar::no_warnings()),
                Self::line_flag_kept(*old(self), *self),
                s == self.input(),
                0 <= p <= s.len(),
                c == grammar::byte_at(s, p),
                self.pos() == if p < s.len() { p + 1 } else { p },
                grammar::skip_backslashes(s, p) == grammar::skip_backslashes(s, p0),
                old(self).pos() <= p,
            ensures
                Self::moved(*old(self), *self, grammar::no_warnings()),
                Self::line_flag_kept(*old(self), *self),
                old(self).pos() <= p <= s.len(),
                c == grammar::byte_at(s, p),
                self.pos() == if p < s.len() { p + 1 } else { p },
                p == grammar::skip_backslashes(s, p0),
            decreases s.len() - p,
        {
            if c != Some(0x5cu8) {
                break;
            }
            let ghost b1 = *self;
            if !self.match_next(0x0au8) {
                proof {
                    Self::lemma_chain(*old(self), b1, *self, grammar::no_warnings(), grammar::no_warnings());
                }
                break;
            }
            let ghost b2 = *self;
            self.consume_whitespace();
            let ghost b3 = *self;
            proof {
                grammar::lemma_space_end_bounds(s, p + 2);
                p = self.pos();
            }
            c = self.next_char();
            proof {
                Self::lemma_chain(*old(self), b1, b2, grammar::no_warnings(), grammar::no_warnings());
                Self::lemma_chain(*old(self), b2, b3, grammar::no_warnings(), grammar::no_warnings());
                Self::lemma_chain(*old(self), b3, *self, grammar::no_warnings(), grammar::no_warnings());
            }
        }
        let ghost p1 = p;
        // avoid stack overflow on lots of comments
        loop
            invariant
                old(self).wf(),
                Self::moved(*old(self), *self, grammar::no_warnings()),
                Self::line_flag_kept(*old(self), *self),
                s == self.input(),
                i == old(self).pos(),
                0 <= p <= s.len(),
                c == grammar::byte_at(s, p),
                self.pos() == if p < s.len() { p + 1 } else { p },
                grammar::skip_comments(s, p) == grammar::skip_comments(s, p1),
                grammar::token_start(s, i) == grammar::skip_comments(s, p1),
                i <= p,
            ensures
                Self::moved(*old(self), *self, grammar::no_warnings()),
                Self::line_flag_kept(*old(self), *self),
                i <= p <= s.len(),
                c == grammar::byte_at(s, p),
                self.pos() == if p < s.len() { p + 1 } else { p },
                grammar::token_start(s, i) == Ok::<int, int>(p),
            decreases s.len() - p,
        {
            if c != Some(0x2fu8) {
                break;
            }
            let next = self.peek();
            if next == Some(0x2fu8) {
                let ghost b1 = *self;
                self.consume_line_comment();
                let ghost b2 = *self;
                self.consume_whitespace();
                let ghost b3 = *self;
                proof {
                    grammar::lemma_line_comment_end_bounds(s, p + 2);
                    grammar::lemma_space_end_bounds(s, grammar::line_comment_end(s, p + 2));
                    p = self.pos();
                }
                c = self.next_char();
                proof {
                    Self::lemma_chain(*old(self), b1, b2, grammar::no_warnings(), grammar::no_warnings());
                    Self::lemma_chain(*old(self), b2, b3, grammar::no_warnings(), grammar::no_warnings());
                    Self::lemma_chain(*old(self), b3, *self, grammar::no_warnings(), grammar::no_warnings());
                }
            } else if next == Some(0x2au8) {
                let ghost b1 = *self;
                // discard '*' so /*/ doesn't look like a complete comment
                self.next_char();
                let ghost b2 = *self;
                let res = self.consume_multi_comment();
                proof {
                    Self::lemma_chain(*old(self), b1, b2, grammar::no_warnings(), grammar::no_warnings());
                    Self::lemma_chain(*old(self), b2, *self, grammar::no_warnings(), grammar::no_warnings());
                    grammar::lemma_block_comment_end_bounds(s, p + 2);
                }
                match res {
                    Err(err) => {
                        proof {
                            assert(located_warnings(grammar::no_warnings(), self.location.file) =~= Seq::<CompileWarning>::empty());
                            Self::lemma_line_monotone(*old(self), *self);
                        }
                        return Some(Err(err));
                    },
                    Ok(()) => {},
                }
                let ghost b3 = *self;
                self.consume_whitespace();
                let ghost b4 = *self;
                proof {
                    grammar::lemma_space_end_bounds(s, b3.pos());
                    p = self.pos();
                }
                c = self.next_char();
                proof {
                    Self::lemma_chain(*old(self), b3, b4, grammar::no_warnings(), grammar::no_warnings());
                    Self::lemma_chain(*old(self), b4, *self, grammar::no_warnings(), grammar::no_warnings());
                }
            } else {
                break;
            }
        }
        proof {
            Self::lemma_line_monotone(*old(self), *self);
        }
        match c {
            None => {
                proof {
                    assert(located_warnings(grammar::no_warnings(), self.location.file) =~= Seq::<CompileWarning>::empty());
                }
                None
            },
            Some(c) => {
                let span_start = self.location.offset - 1;
                let ghost b1 = *self;
                let res = self.lex_token(c);
                proof {
                    Self::lemma_chain(*old(self), b1, *self, grammar::no_warnings(), grammar::token_scan(s, p).2);
                    Self::lemma_line_monotone(*old(self), *self);
                }
                match res {
                    Ok(data) => {
                        if !(matches!(data, Token::Hash)) {
                            self.seen_line_token = true;
                        }
                        Some(Ok(Locatable { data, location: self.span(span_start) }))
                    },
                    Err(e) => Some(Err(Locatable { data: Error::Lex(e), location: self.span(span_start) })),
                }
            },
        }
    }

    /// The location from `start` to the current offset.
    fn span(&self, start: u32) -> (r: Location)
        requires
            start <= self.pos(),
        ensures
            r == loc(self.file(), start as int, self.pos()),
    {
        Location { span: Span { start, end: self.location.offset }, file: self.location.file }
    }
}

fn is_space_byte(c: u8) -> (r: bool)
    ensures
        r == grammar::is_space(c),
{
    c == 0x20u8 || c == 0x09u8 || c == 0x0au8 || c == 0x0cu8 || c == 0x0du8
}

fn is_digit_byte(c: u8) -> (r: bool)
    ensures
        r == grammar::is_digit(c),
{
    0x30u8 <= c && c <= 0x39u8
}

fn is_exponent_start_byte(c: u8) -> (r: bool)
    ensures
        r == grammar::is_exponent_start(c),
{
    is_digit_byte(c) || c == 0x2bu8 || c == 0x2du8
}

/// The value of `c` read as a hexadecimal digit.
pub(crate) fn hex_digit(c: u8) -> (r: Option<u32>)
    ensures
        r == grammar::hex_value(c),
{
    if 0x30u8 <= c && c <= 0x39u8 {
        Some((c - 0x30u8) as u32)
    } else if 0x61u8 <= c && c <= 0x66u8 {
        Some((c - 0x61u8 + 10) as u32)
    } else if 0x41u8 <= c && c <= 0x46u8 {
        Some((c - 0x41u8 + 10) as u32)
    } else {
        None
    }
}

fn is_radix_digit_byte(c: u8, radix: u32) -> (r: bool)
    ensures
        r == grammar::is_radix_digit(c, radix),
{
    match hex_digit(c) {
        Some(d) => d < radix,
        None => false,
    }
}

fn radix_name(radix: u32) -> (r: Radix)
    ensures
        r == grammar::radix_of(radix),
{
    if radix == 2 {
        Radix::Binary
    } else if radix == 8 {
        Radix::Octal
    } else if radix == 16 {
        Radix::Hexadecimal
    } else {
        Radix::Decimal
    }
}

/// The byte that a one-letter escape `\\e` stands for.
fn escape_byte(e: u8) -> (r: Option<u8>)
    ensures
        r == grammar::simple_escape(e),
{
    if e == 0x6eu8 {
        Some(0x0au8)
    } else if e == 0x72u8 {
        Some(0x0du8)
    } else if e == 0x74u8 {
        Some(0x09u8)
    } else if e == 0x22u8 || e == 0x27u8 || e == 0x5cu8 || e == 0x3fu8 {
        Some(e)
    } else if e == 0x61u8 {
        Some(0x07u8)
    } else if e == 0x62u8 {
        Some(0x08u8)
    } else if e == 0x76u8 {
        Some(0x0bu8)
    } else if e == 0x66u8 {
        Some(0x0cu8)
    } else {
        None
    }
}

/// Once the lexer stands at the end of its input, `next_token` gives `None` and leaves it
/// there, without warnings. Since a `None` from `next_token` leaves the lexer at the end,
/// the lexer never gives a token again once it has given `None`.
pub proof fn lemma_lexer_stays_at_end(l: Lexer, r: Option<CompileResult<Locatable<Token>>>)
    requires
        l.wf(),
        l.pos() == l.input().len(),
        step_matches(r, l.input(), l.pos(), l.file()),
    ensures
        r is None,
        grammar::lex_step(l.input(), l.pos()).2 == l.pos(),
        grammar::lex_step(l.input(), l.pos()).3 == grammar::no_warnings(),
{
}

pub proof fn lemma_digits_value_push(d: Seq<u8>, c: u8, radix: int)
    ensures
        grammar::digits_value(d.push(c), radix) == grammar::digits_value(d, radix) * radix + match grammar::hex_value(c) {
            Some(v) => v as int,
            None => 0,
        },
{
    assert(d.push(c).drop_last() =~= d);
}

pub proof fn lemma_digits_value_nonneg(d: Seq<u8>, radix: int)
    requires
        radix >= 0,
    ensures
        grammar::digits_value(d, radix) >= 0,
    decreases d.len(),
{
    if d.len() > 0 {
        lemma_digits_value_nonneg(d.drop_last(), radix);
        assert(grammar::digits_value(d.drop_last(), radix) * radix >= 0) by (nonlinear_arith)
            requires
                grammar::digits_value(d.drop_last(), radix) >= 0,
                radix >= 0,
        ;
    }
}

fn is_id_char_byte(c: u8) -> (r: bool)
    ensures
        r == grammar::is_id_char(c),
{
    (0x30u8 <= c && c <= 0x39u8) || (0x61u8 <= c && c <= 0x7au8) || (0x41u8 <= c && c <= 0x5au8) || c == 0x5fu8
}

pub proof fn lemma_newlines_mono(s: Seq<u8>, i: int, j: int)
    requires
        0 <= i <= j <= s.len(),
    ensures
        grammar::newlines(s.take(i)) <= grammar::newlines(s.take(j)),
    decreases j - i,
{
    if i < j {
        lemma_newlines_mono(s, i, j - 1);
        lemma_newlines_take(s, j - 1);
    }
}

} // verus!
