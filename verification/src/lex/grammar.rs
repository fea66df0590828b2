//! The lexical grammar of C as this lexer reads it, stated over byte sequences.
//!
//! Every function here takes the source `s` and a position in it, and says
//! where the construct that starts there ends and what it stands for.
//! Warnings are given as (warning, span start, span end).
use vstd::prelude::*;

use crate::data::error::{LexError, Radix, Warning};
use crate::data::lex::{AssignmentToken, ComparisonToken, LiteralTokenView, Token, TokenView};

verus! {

/// What reading one logical character of a character or string literal can stop on.
#[derive(Copy, Clone, Debug, PartialEq, Eq, Structural)]
pub enum CharError {
    /// the input ended
    Eof,
    /// an unescaped newline
    Newline,
    /// the closing quote
    Terminator,
    /// a numeric escape whose value does not fit in a byte
    OutOfRange(Radix),
}

pub type Warnings = Seq<(Warning, int, int)>;

pub open spec fn no_warnings() -> Warnings {
    Seq::empty()
}

pub open spec fn is_at(s: Seq<u8>, i: int, c: u8) -> bool {
    0 <= i < s.len() && s[i] == c
}

pub open spec fn byte_at(s: Seq<u8>, i: int) -> Option<u8> {
    if 0 <= i < s.len() {
        Some(s[i])
    } else {
        None
    }
}

/// ASCII whitespace: space, tab, newline, form feed, carriage return
pub open spec fn is_space(c: u8) -> bool {
    c == 0x20u8 || c == 0x09u8 || c == 0x0au8 || c == 0x0cu8 || c == 0x0du8
}

pub open spec fn is_digit(c: u8) -> bool {
    0x30u8 <= c <= 0x39u8
}

pub open spec fn is_id_start(c: u8) -> bool {
    (0x61u8 <= c <= 0x7au8) || (0x41u8 <= c <= 0x5au8) || c == 0x5fu8
}

pub open spec fn is_id_char(c: u8) -> bool {
    is_digit(c) || is_id_start(c)
}

pub open spec fn is_octal(c: u8) -> bool {
    0x30u8 <= c <= 0x37u8
}

/// The value of `c` read as a digit in base 16 (`0-9`, `a-f`, `A-F`).
pub open spec fn hex_value(c: u8) -> Option<u32> {
    if is_digit(c) {
        Some((c - 0x30u8) as u32)
    } else if 0x61u8 <= c <= 0x66u8 {
        Some((c - 0x61u8 + 10) as u32)
    } else if 0x41u8 <= c <= 0x46u8 {
        Some((c - 0x41u8 + 10) as u32)
    } else {
        None
    }
}

/// Whether `c` is a digit of base `radix` (2, 8, 10 or 16).
pub open spec fn is_radix_digit(c: u8, radix: u32) -> bool {
    match hex_value(c) {
        Some(d) => d < radix,
        None => false,
    }
}

/// The number that the digits `d` spell in base `radix`.
pub open spec fn digits_value(d: Seq<u8>, radix: int) -> int
    decreases d.len(),
{
    if d.len() == 0 {
        0
    } else {
        digits_value(d.drop_last(), radix) * radix + (match hex_value(d.last()) {
            Some(v) => v as int,
            None => 0,
        })
    }
}

/// The number of newline bytes in `s`.
pub open spec fn newlines(s: Seq<u8>) -> nat
    decreases s.len(),
{
    if s.len() == 0 {
        0
    } else {
        newlines(s.drop_last()) + if s.last() == 0x0au8 {
            1nat
        } else {
            0nat
        }
    }
}

/// The end of the run of whitespace that starts at `i`.
pub open spec fn space_end(s: Seq<u8>, i: int) -> int
    decreases s.len() - i,
{
    if 0 <= i < s.len() && is_space(s[i]) {
        space_end(s, i + 1)
    } else {
        i
    }
}

/// The end of the run of identifier characters that starts at `i`.
pub open spec fn id_end(s: Seq<u8>, i: int) -> int
    decreases s.len() - i,
{
    if 0 <= i < s.len() && is_id_char(s[i]) {
        id_end(s, i + 1)
    } else {
        i
    }
}

/// The end of the run of decimal digits that starts at `i`.
pub open spec fn decimal_end(s: Seq<u8>, i: int) -> int
    decreases s.len() - i,
{
    if 0 <= i < s.len() && is_digit(s[i]) {
        decimal_end(s, i + 1)
    } else {
        i
    }
}

/// The end of the run of digits of base `radix` that starts at `i`.
pub open spec fn radix_end(s: Seq<u8>, i: int, radix: u32) -> int
    decreases s.len() - i,
{
    if 0 <= i < s.len() && is_radix_digit(s[i], radix) {
        radix_end(s, i + 1, radix)
    } else {
        i
    }
}

/// A `//` comment whose text starts at `i` runs up to and including the next newline,
/// or to the end of the input.
pub open spec fn line_comment_end(s: Seq<u8>, i: int) -> int
    decreases s.len() - i,
{
    if 0 <= i < s.len() {
        if s[i] == 0x0au8 {
            i + 1
        } else {
            line_comment_end(s, i + 1)
        }
    } else {
        i
    }
}

/// A `/*` comment whose text starts at `i` ends just after the first `*/`;
/// `None` when there is none.
pub open spec fn block_comment_end(s: Seq<u8>, i: int) -> Option<int>
    decreases s.len() - i,
{
    if 0 <= i < s.len() {
        if s[i] == 0x2au8 && is_at(s, i + 1, 0x2fu8) {
            Some(i + 2)
        } else {
            block_comment_end(s, i + 1)
        }
    } else {
        None
    }
}

/// Skip backslash-newline pairs (and the whitespace after each) where a token could start.
pub open spec fn skip_backslashes(s: Seq<u8>, p: int) -> int
    decreases s.len() - p,
{
    if is_at(s, p, 0x5cu8) && is_at(s, p + 1, 0x0au8) {
        proof {
            lemma_space_end_bounds(s, p + 2);
        }
        skip_backslashes(s, space_end(s, p + 2))
    } else {
        p
    }
}

/// Skip comments (and the whitespace after each) where a token could start.
/// `Ok` gives the position of the token; `Err` the start of an unterminated `/*` comment.
pub open spec fn skip_comments(s: Seq<u8>, p: int) -> Result<int, int>
    decreases s.len() - p,
{
    if is_at(s, p, 0x2fu8) && is_at(s, p + 1, 0x2fu8) {
        proof {
            lemma_line_comment_end_bounds(s, p + 2);
            lemma_space_end_bounds(s, line_comment_end(s, p + 2));
        }
        skip_comments(s, space_end(s, line_comment_end(s, p + 2)))
    } else if is_at(s, p, 0x2fu8) && is_at(s, p + 1, 0x2au8) {
        match block_comment_end(s, p + 2) {
            None => Err(p),
            Some(e) => {
                proof {
                    lemma_block_comment_end_bounds(s, p + 2);
                    lemma_space_end_bounds(s, e);
                }
                skip_comments(s, space_end(s, e))
            },
        }
    } else {
        Ok(p)
    }
}

/// Where the next token starts when reading from `i`: after whitespace,
/// backslash-newline pairs and comments.
pub open spec fn token_start(s: Seq<u8>, i: int) -> Result<int, int> {
    skip_comments(s, skip_backslashes(s, space_end(s, i)))
}

pub open spec fn radix_of(radix: u32) -> Radix {
    if radix == 2 {
        Radix::Binary
    } else if radix == 8 {
        Radix::Octal
    } else if radix == 16 {
        Radix::Hexadecimal
    } else {
        Radix::Decimal
    }
}

/// Scan the digits of an integer constant in base `radix` from `i`.
/// A letter that may follow a number (`b`, `e`, `f`, in bases below 16) ends the digits;
/// another digit too large for the base is an error: `Err((its value, its position))`.
pub open spec fn digit_scan(s: Seq<u8>, i: int, radix: u32) -> Result<int, (u32, int)>
    decreases s.len() - i,
{
    if 0 <= i < s.len() {
        match hex_value(s[i]) {
            None => Ok(i),
            Some(d) => if d < radix {
                digit_scan(s, i + 1, radix)
            } else if d == 11 || d == 14 || d == 15 {
                Ok(i)
            } else {
                Err((d, i))
            },
        }
    } else {
        Ok(i)
    }
}

/// What may start an exponent after `e` or `p`: a digit or a sign.
pub open spec fn is_exponent_start(c: u8) -> bool {
    is_digit(c) || c == 0x2bu8 || c == 0x2du8
}

/// The exponent part of a floating constant at `x`, appended to the spelling `buf`.
/// Decimal constants use `e`/`E`, hexadecimal ones `p`/`P`; the exponent is optional.
pub open spec fn exponent_scan(s: Seq<u8>, x: int, hex: bool, buf: Seq<u8>) -> (Result<Seq<u8>, LexError>, int) {
    let marker = if hex {
        is_at(s, x, 0x70u8) || is_at(s, x, 0x50u8)
    } else {
        is_at(s, x, 0x65u8) || is_at(s, x, 0x45u8)
    };
    if marker {
        if !(x + 1 < s.len() && is_exponent_start(s[x + 1])) {
            (Err(LexError::ExponentMissingDigits), x + 1)
        } else {
            let z = decimal_end(s, x + 2);
            (Ok(buf.push(if hex { 0x70u8 } else { 0x65u8 }).push(s[x + 1]) + s.subrange(x + 2, z)), z)
        }
    } else {
        let z = decimal_end(s, x);
        (Ok(buf + s.subrange(x, z)), z)
    }
}

/// A floating constant may end with one of `f`, `F`, `l`, `L`, which is skipped.
pub open spec fn float_suffix_end(s: Seq<u8>, h: int) -> int {
    if is_at(s, h, 0x66u8) || is_at(s, h, 0x46u8) || is_at(s, h, 0x6cu8) || is_at(s, h, 0x4cu8) {
        h + 1
    } else {
        h
    }
}

/// An integer constant may end with `l`, `ll`, `L` or `LL`, which is skipped.
pub open spec fn int_suffix_end(s: Seq<u8>, e: int) -> int {
    if is_at(s, e, 0x6cu8) {
        if is_at(s, e + 1, 0x6cu8) {
            e + 2
        } else {
            e + 1
        }
    } else if is_at(s, e, 0x4cu8) {
        if is_at(s, e + 1, 0x4cu8) {
            e + 2
        } else {
            e + 1
        }
    } else {
        e
    }
}

pub open spec fn float_token(r: Result<Seq<u8>, LexError>) -> Result<TokenView, LexError> {
    match r {
        Ok(b) => Ok(TokenView::Literal(LiteralTokenView::Float(b))),
        Err(e) => Err(e),
    }
}

/// The fraction and exponent of a floating constant whose `.` ends just before `f`;
/// `buf` is the spelling so far. The fraction is written in base `radix`.
pub open spec fn fraction_scan(s: Seq<u8>, f: int, radix: u32, buf: Seq<u8>) -> (Result<Seq<u8>, LexError>, int) {
    let g = radix_end(s, f, radix);
    let (r, h) = exponent_scan(s, g, radix == 16, buf.push(0x2eu8) + s.subrange(f, g));
    (r, float_suffix_end(s, h))
}

/// The rest of an integer or floating constant that starts at `p`,
/// whose digits in base `radix` start at `r`.
pub open spec fn number_rest(s: Seq<u8>, p: int, r: int, radix: u32) -> (Result<TokenView, LexError>, int, Warnings) {
    match digit_scan(s, r, radix) {
        Err((digit, pos)) => (Err(LexError::InvalidDigit { digit, radix: radix_of(radix) }), pos, no_warnings()),
        Ok(e) => if e == r && !(radix == 8 || radix == 10 || is_at(s, e, 0x2eu8)) {
            (
                Err(LexError::MissingDigits(if radix == 2 { Radix::Binary } else { Radix::Hexadecimal })),
                e,
                no_warnings(),
            )
        } else {
            number_tail(
                s,
                p,
                e,
                radix,
                s.subrange(p, p + 1) + (if radix == 16 { seq![0x78u8] } else { Seq::empty() }) + s.subrange(r, e),
            )
        },
    }
}

/// What follows the digits of a numeric constant that starts at `p`, from `e`:
/// a fraction or an exponent makes it a floating constant, otherwise it is an integer
/// constant with optional suffixes. `buf` is the spelling of the digits for a float.
pub open spec fn number_tail(s: Seq<u8>, p: int, e: int, radix: u32, buf: Seq<u8>) -> (Result<TokenView, LexError>, int, Warnings) {
    if is_at(s, e, 0x2eu8) {
        let (res, h) = fraction_scan(s, e + 1, radix, buf);
        (float_token(res), h, no_warnings())
    } else if is_at(s, e, 0x65u8) || is_at(s, e, 0x45u8) || is_at(s, e, 0x70u8) || is_at(s, e, 0x50u8) {
        let (res, h) = exponent_scan(s, e, radix == 16, buf + seq![0x2eu8, 0x30u8]);
        (float_token(res), float_suffix_end(s, h), no_warnings())
    } else {
        let unsigned = is_at(s, e, 0x75u8) || is_at(s, e, 0x55u8);
        let e2 = int_suffix_end(s, if unsigned { e + 1 } else { e });
        let spelling = s.subrange(p, e);
        let tok = if unsigned {
            LiteralTokenView::UnsignedInt(spelling)
        } else {
            LiteralTokenView::Int(spelling)
        };
        (
            Ok(TokenView::Literal(tok)),
            e2,
            if radix == 2 { seq![(Warning::BinaryLiteral, p, e2)] } else { no_warnings() },
        )
    }
}

/// A numeric constant starting with the digit at `p`.
/// `0b` starts a binary, `0x` a hexadecimal and another leading `0` an octal constant.
pub open spec fn number_scan(s: Seq<u8>, p: int) -> (Result<TokenView, LexError>, int, Warnings) {
    let q = p + 1;
    if s[p] == 0x30u8 && is_at(s, q, 0x62u8) {
        number_rest(s, p, q + 1, 2)
    } else if s[p] == 0x30u8 && is_at(s, q, 0x78u8) {
        number_rest(s, p, q + 1, 16)
    } else if s[p] == 0x30u8 && is_at(s, q, 0x2eu8) {
        let (res, h) = fraction_scan(s, q + 1, 10, seq![0x30u8]);
        (float_token(res), h, no_warnings())
    } else if s[p] == 0x30u8 {
        number_rest(s, p, q, 8)
    } else {
        number_rest(s, p, q, 10)
    }
}

/// The byte that `\c` stands for, for the escapes that are a single letter or sign.
pub open spec fn simple_escape(c: u8) -> Option<u8> {
    if c == 0x6eu8 {
        Some(0x0au8)
    } else if c == 0x72u8 {
        Some(0x0du8)
    } else if c == 0x74u8 {
        Some(0x09u8)
    } else if c == 0x22u8 || c == 0x27u8 || c == 0x5cu8 || c == 0x3fu8 {
        Some(c)
    } else if c == 0x61u8 {
        Some(0x07u8)
    } else if c == 0x62u8 {
        Some(0x08u8)
    } else if c == 0x76u8 {
        Some(0x0bu8)
    } else if c == 0x66u8 {
        Some(0x0cu8)
    } else {
        None
    }
}

/// An octal escape takes the octal digit at `i` and at most two more.
pub open spec fn octal_escape_end(s: Seq<u8>, i: int) -> int {
    if i + 1 < s.len() && is_octal(s[i + 1]) {
        if i + 2 < s.len() && is_octal(s[i + 2]) {
            i + 3
        } else {
            i + 2
        }
    } else {
        i + 1
    }
}

/// One logical character of a literal at `i`: a byte, or an escape sequence after `\`.
/// A backslash before a newline is skipped with the newline.
/// `string` says whether `"` (rather than `'`) closes the literal.
pub open spec fn single_char(s: Seq<u8>, i: int, string: bool) -> (Result<u8, CharError>, int, Warnings)
    decreases s.len() - i,
{
    let terminator = if string { 0x22u8 } else { 0x27u8 };
    if !(0 <= i < s.len()) {
        (Err(CharError::Eof), i, no_warnings())
    } else if s[i] == 0x5cu8 {
        if i + 1 >= s.len() {
            (Err(CharError::Eof), i + 1, no_warnings())
        } else {
            let e = s[i + 1];
            if e == 0x0au8 {
                single_char(s, i + 2, string)
            } else if simple_escape(e) is Some {
                (Ok(simple_escape(e).unwrap()), i + 2, no_warnings())
            } else if e == 0x78u8 && i + 2 < s.len() && is_radix_digit(s[i + 2], 16) {
                let h = radix_end(s, i + 2, 16);
                let v = digits_value(s.subrange(i + 2, h), 16);
                if v > 255 {
                    (Err(CharError::OutOfRange(Radix::Hexadecimal)), h, no_warnings())
                } else {
                    (Ok(v as u8), h, no_warnings())
                }
            } else if is_octal(e) {
                let o = octal_escape_end(s, i + 1);
                let v = digits_value(s.subrange(i + 1, o), 8);
                if v > 255 {
                    (Err(CharError::OutOfRange(Radix::Octal)), o, no_warnings())
                } else {
                    (Ok(v as u8), o, no_warnings())
                }
            } else {
                (Ok(e), i + 2, seq![(Warning::UnknownCharEscape(e), i + 1, i + 2)])
            }
        }
    } else if s[i] == 0x0au8 {
        (Err(CharError::Newline), i + 1, no_warnings())
    } else if s[i] == terminator {
        (Err(CharError::Terminator), i + 1, no_warnings())
    } else {
        (Ok(s[i]), i + 1, no_warnings())
    }
}

/// After a malformed character literal, skip up to and including its closing quote
/// (or to the first newline, unterminated escape, or the end of input).
pub open spec fn until_quote(s: Seq<u8>, i: int) -> (int, Warnings)
    decreases s.len() - i,
{
    let (r, j, w) = single_char(s, i, false);
    match r {
        Ok(c) => if c == 0x27u8 {
            (j, w)
        } else {
            proof {
                lemma_single_char_bounds(s, i, false);
            }
            let (k, w2) = until_quote(s, j);
            (k, w + w2)
        },
        Err(_) => (j, w),
    }
}

/// Where the logical character at `i` begins, past backslash-newline pairs.
pub open spec fn char_start(s: Seq<u8>, i: int) -> int
    decreases s.len() - i,
{
    if 0 <= i && i + 1 < s.len() && s[i] == 0x5cu8 && s[i + 1] == 0x0au8 {
        char_start(s, i + 2)
    } else {
        i
    }
}

/// Whether the logical character at `i` is written as a hexadecimal or octal escape.
pub open spec fn numeric_escape(s: Seq<u8>, i: int) -> bool {
    let p = char_start(s, i);
    is_at(s, p, 0x5cu8) && p + 1 < s.len() && (s[p + 1] == 0x78u8 || is_octal(s[p + 1]))
}

/// A character literal whose opening quote ends just before `i`.
/// A byte outside ASCII may only be written as a numeric escape.
pub open spec fn char_scan(s: Seq<u8>, i: int) -> (Result<TokenView, LexError>, int, Warnings) {
    let (r, j, w) = single_char(s, i, false);
    match r {
        Ok(c) => if c >= 0x80u8 && !numeric_escape(s, i) {
            let (k, w2) = until_quote(s, j);
            (Err(LexError::MultiByteCharLiteral), k, w + w2)
        } else if is_at(s, j, 0x27u8) {
            (Ok(TokenView::Literal(LiteralTokenView::Char(c))), j + 1, w)
        } else if is_at(s, j, 0x0au8) {
            (Err(LexError::NewlineInChar), j + 1, w)
        } else if j >= s.len() {
            (Err(LexError::MissingEndQuote { string: false }), j, w)
        } else {
            let (k, w2) = until_quote(s, j + 1);
            (Err(LexError::MultiCharCharLiteral), k, w + w2)
        },
        Err(CharError::Eof) => (Err(LexError::MissingEndQuote { string: false }), j, w),
        Err(CharError::Newline) => (Err(LexError::NewlineInChar), j, w),
        Err(CharError::Terminator) => (Err(LexError::EmptyChar), j, w),
        Err(CharError::OutOfRange(radix)) => {
            let (k, w2) = until_quote(s, j);
            (Err(LexError::CharEscapeOutOfRange(radix)), k, w + w2)
        },
    }
}

/// Adjacent string literals starting at `i`, appended to `acc`;
/// the bytes of all of them are joined and end with a zero byte.
pub open spec fn string_scan(s: Seq<u8>, i: int, acc: Seq<u8>) -> (Result<Seq<u8>, LexError>, int, Warnings)
    decreases s.len() - i, 1int,
{
    if is_at(s, i, 0x22u8) {
        string_body(s, i + 1, acc)
    } else {
        (Ok(acc.push(0u8)), i, no_warnings())
    }
}

/// The contents of a string literal from `k`, after its opening quote.
pub open spec fn string_body(s: Seq<u8>, k: int, acc: Seq<u8>) -> (Result<Seq<u8>, LexError>, int, Warnings)
    decreases s.len() - k, 0int,
{
    let (r, j, w) = single_char(s, k, true);
    match r {
        Ok(c) => {
            proof {
                lemma_single_char_bounds(s, k, true);
            }
            let (r2, e, w2) = string_body(s, j, acc.push(c));
            (r2, e, w + w2)
        },
        Err(CharError::Eof) => (Err(LexError::MissingEndQuote { string: true }), j, w),
        Err(CharError::Newline) => (Err(LexError::NewlineInString), j, w),
        Err(CharError::Terminator) => {
            proof {
                lemma_single_char_bounds(s, k, true);
                lemma_space_end_bounds(s, j);
            }
            let (r2, e, w2) = string_scan(s, space_end(s, j), acc);
            (r2, e, w + w2)
        },
        Err(CharError::OutOfRange(radix)) => (Err(LexError::CharEscapeOutOfRange(radix)), j, w),
    }
}

pub open spec fn plain(t: Token) -> Result<TokenView, LexError> {
    Ok(TokenView::Plain(t))
}

/// A token that is one character `c` at `p`, or two or three characters starting with it.
pub open spec fn punct_scan(s: Seq<u8>, p: int) -> (Result<TokenView, LexError>, int) {
    let c = s[p];
    let q = p + 1;
    let eq = is_at(s, q, 0x3du8);
    if c == 0x23u8 {
        (plain(Token::Hash), q)
    } else if c == 0x2bu8 {
        if eq {
            (plain(Token::Assignment(AssignmentToken::PlusEqual)), q + 1)
        } else if is_at(s, q, 0x2bu8) {
            (plain(Token::PlusPlus), q + 1)
        } else {
            (plain(Token::Plus), q)
        }
    } else if c == 0x2du8 {
        if eq {
            (plain(Token::Assignment(AssignmentToken::MinusEqual)), q + 1)
        } else if is_at(s, q, 0x2du8) {
            (plain(Token::MinusMinus), q + 1)
        } else if is_at(s, q, 0x3eu8) {
            (plain(Token::StructDeref), q + 1)
        } else {
            (plain(Token::Minus), q)
        }
    } else if c == 0x2au8 {
        if eq {
            (plain(Token::Assignment(AssignmentToken::StarEqual)), q + 1)
        } else {
            (plain(Token::Star), q)
        }
    } else if c == 0x2fu8 {
        if eq {
            (plain(Token::Assignment(AssignmentToken::DivideEqual)), q + 1)
        } else {
            (plain(Token::Divide), q)
        }
    } else if c == 0x25u8 {
        if eq {
            (plain(Token::Assignment(AssignmentToken::ModEqual)), q + 1)
        } else {
            (plain(Token::Mod), q)
        }
    } else if c == 0x5eu8 {
        if eq {
            (plain(Token::Assignment(AssignmentToken::XorEqual)), q + 1)
        } else {
            (plain(Token::Xor), q)
        }
    } else if c == 0x3du8 {
        if eq {
            (plain(Token::Comparison(ComparisonToken::EqualEqual)), q + 1)
        } else {
            (plain(Token::Assignment(AssignmentToken::Equal)), q)
        }
    } else if c == 0x21u8 {
        if eq {
            (plain(Token::Comparison(ComparisonToken::NotEqual)), q + 1)
        } else {
            (plain(Token::LogicalNot), q)
        }
    } else if c == 0x3eu8 {
        if eq {
            (plain(Token::Comparison(ComparisonToken::GreaterEqual)), q + 1)
        } else if is_at(s, q, 0x3eu8) {
            if is_at(s, q + 1, 0x3du8) {
                (plain(Token::Assignment(AssignmentToken::RightEqual)), q + 2)
            } else {
                (plain(Token::ShiftRight), q + 1)
            }
        } else {
            (plain(Token::Comparison(ComparisonToken::Greater)), q)
        }
    } else if c == 0x3cu8 {
        if eq {
            (plain(Token::Comparison(ComparisonToken::LessEqual)), q + 1)
        } else if is_at(s, q, 0x3cu8) {
            if is_at(s, q + 1, 0x3du8) {
                (plain(Token::Assignment(AssignmentToken::LeftEqual)), q + 2)
            } else {
                (plain(Token::ShiftLeft), q + 1)
            }
        } else {
            (plain(Token::Comparison(ComparisonToken::Less)), q)
        }
    } else if c == 0x26u8 {
        if is_at(s, q, 0x26u8) {
            (plain(Token::LogicalAnd), q + 1)
        } else if eq {
            (plain(Token::Assignment(AssignmentToken::AndEqual)), q + 1)
        } else {
            (plain(Token::Ampersand), q)
        }
    } else if c == 0x7cu8 {
        if is_at(s, q, 0x7cu8) {
            (plain(Token::LogicalOr), q + 1)
        } else if eq {
            (plain(Token::Assignment(AssignmentToken::OrEqual)), q + 1)
        } else {
            (plain(Token::BitwiseOr), q)
        }
    } else if c == 0x7bu8 {
        (plain(Token::LeftBrace), q)
    } else if c == 0x7du8 {
        (plain(Token::RightBrace), q)
    } else if c == 0x28u8 {
        (plain(Token::LeftParen), q)
    } else if c == 0x29u8 {
        (plain(Token::RightParen), q)
    } else if c == 0x5bu8 {
        (plain(Token::LeftBracket), q)
    } else if c == 0x5du8 {
        (plain(Token::RightBracket), q)
    } else if c == 0x7eu8 {
        (plain(Token::BinaryNot), q)
    } else if c == 0x3au8 {
        (plain(Token::Colon), q)
    } else if c == 0x3bu8 {
        (plain(Token::Semicolon), q)
    } else if c == 0x2cu8 {
        (plain(Token::Comma), q)
    } else if c == 0x3fu8 {
        (plain(Token::Question), q)
    } else if c == 0x2eu8 {
        if is_at(s, q, 0x2eu8) && is_at(s, q + 1, 0x2eu8) {
            (plain(Token::Ellipsis), q + 2)
        } else {
            (plain(Token::Dot), q)
        }
    } else {
        (Err(LexError::UnknownToken(c as char)), q)
    }
}

/// The token that starts with the byte at `p`: what it is, where it ends, and the
/// warnings it gives.
pub open spec fn token_scan(s: Seq<u8>, p: int) -> (Result<TokenView, LexError>, int, Warnings) {
    let c = s[p];
    if c == 0x2eu8 && p + 1 < s.len() && is_digit(s[p + 1]) {
        let (res, h) = fraction_scan(s, p + 1, 10, Seq::empty());
        (float_token(res), h, no_warnings())
    } else if is_digit(c) {
        number_scan(s, p)
    } else if is_id_start(c) {
        let e = id_end(s, p + 1);
        (Ok(TokenView::Id(s.subrange(p, e))), e, no_warnings())
    } else if c == 0x27u8 {
        char_scan(s, p + 1)
    } else if c == 0x22u8 {
        let (r, e, w) = string_scan(s, p, Seq::empty());
        (
            match r {
                Ok(b) => Ok(TokenView::Literal(LiteralTokenView::Str(b))),
                Err(err) => Err(err),
            },
            e,
            w,
        )
    } else {
        let (r, e) = punct_scan(s, p);
        (r, e, no_warnings())
    }
}

/// One step of the lexer from position `i`: the next token or error (`None` at the end
/// of input), the span it covers, and the warnings it gives.
pub open spec fn lex_step(s: Seq<u8>, i: int) -> (Option<Result<TokenView, LexError>>, int, int, Warnings) {
    match token_start(s, i) {
        Err(p) => (Some(Err(LexError::UnterminatedComment)), p, s.len() as int, no_warnings()),
        Ok(p) => if p >= s.len() {
            (None, p, p, no_warnings())
        } else {
            let (r, e, w) = token_scan(s, p);
            (Some(r), p, e, w)
        },
    }
}

// ---------------------------------------------------------------------------
// Facts about the scanning functions
pub proof fn lemma_space_end_bounds(s: Seq<u8>, i: int)
    requires
        0 <= i <= s.len(),
    ensures
        i <= space_end(s, i) <= s.len(),
    decreases s.len() - i,
{
    if i < s.len() && is_space(s[i]) {
        lemma_space_end_bounds(s, i + 1);
    }
}

pub proof fn lemma_id_end_bounds(s: Seq<u8>, i: int)
    requires
        0 <= i <= s.len(),
    ensures
        i <= id_end(s, i) <= s.len(),
    decreases s.len() - i,
{
    if i < s.len() && is_id_char(s[i]) {
        lemma_id_end_bounds(s, i + 1);
    }
}

pub proof fn lemma_decimal_end_bounds(s: Seq<u8>, i: int)
    requires
        0 <= i <= s.len(),
    ensures
        i <= decimal_end(s, i) <= s.len(),
    decreases s.len() - i,
{
    if i < s.len() && is_digit(s[i]) {
        lemma_decimal_end_bounds(s, i + 1);
    }
}

pub proof fn lemma_radix_end_bounds(s: Seq<u8>, i: int, radix: u32)
    requires
        0 <= i <= s.len(),
    ensures
        i <= radix_end(s, i, radix) <= s.len(),
    decreases s.len() - i,
{
    if i < s.len() && is_radix_digit(s[i], radix) {
        lemma_radix_end_bounds(s, i + 1, radix);
    }
}

pub proof fn lemma_line_comment_end_bounds(s: Seq<u8>, i: int)
    requires
        0 <= i <= s.len(),
    ensures
        i <= line_comment_end(s, i) <= s.len(),
    decreases s.len() - i,
{
    if i < s.len() && s[i] != 0x0au8 {
        lemma_line_comment_end_bounds(s, i + 1);
    }
}

pub proof fn lemma_block_comment_end_bounds(s: Seq<u8>, i: int)
    requires
        0 <= i <= s.len(),
    ensures
        block_comment_end(s, i) matches Some(e) ==> i + 2 <= e <= s.len(),
    decreases s.len() - i,
{
    if i < s.len() && !(s[i] == 0x2au8 && is_at(s, i + 1, 0x2fu8)) {
        lemma_block_comment_end_bounds(s, i + 1);
    }
}

pub proof fn lemma_newlines_take_quote(s: Seq<u8>, p: int)
    requires
        0 <= p < s.len(),
        s[p] == 0x22u8,
    ensures
        newlines(s.take(p + 1)) == newlines(s.take(p)),
{
    assert(s.take(p + 1).drop_last() =~= s.take(p));
}

pub proof fn lemma_string_scan_bounds(s: Seq<u8>, i: int, acc: Seq<u8>)
    ensures
        string_scan(s, i, acc).1 >= i,
    decreases s.len() - i, 1int,
{
    if is_at(s, i, 0x22u8) {
        lemma_string_body_bounds(s, i + 1, acc);
    }
}

pub proof fn lemma_string_body_bounds(s: Seq<u8>, k: int, acc: Seq<u8>)
    ensures
        string_body(s, k, acc).1 >= k,
    decreases s.len() - k, 0int,
{
    lemma_single_char_bounds(s, k, true);
    let (r, j, w) = single_char(s, k, true);
    match r {
        Ok(c) => {
            lemma_string_body_bounds(s, j, acc.push(c));
        },
        Err(CharError::Terminator) => {
            lemma_space_end_bounds(s, j);
            lemma_string_scan_bounds(s, space_end(s, j), acc);
        },
        _ => {},
    }
}

pub proof fn lemma_single_char_bounds(s: Seq<u8>, i: int, string: bool)
    ensures
        0 <= i < s.len() ==> i < single_char(s, i, string).1 <= s.len(),
        !(0 <= i < s.len()) ==> single_char(s, i, string).1 == i,
        single_char(s, i, string).0 is Ok ==> 0 <= i < s.len(),
        single_char(s, i, string).0 == Err::<u8, CharError>(CharError::Terminator) ==> 0 <= i < s.len(),
    decreases s.len() - i,
{
    if 0 <= i < s.len() && s[i] == 0x5cu8 && i + 1 < s.len() {
        let e = s[i + 1];
        if e == 0x0au8 {
            lemma_single_char_bounds(s, i + 2, string);
        } else if simple_escape(e) is Some {
        } else if e == 0x78u8 && i + 2 < s.len() && is_radix_digit(s[i + 2], 16) {
            lemma_radix_end_bounds(s, i + 2, 16);
        }
    }
}


proof fn lemma_skip_backslashes_bounds(s: Seq<u8>, p: int)
    requires
        0 <= p <= s.len(),
    ensures
        p <= skip_backslashes(s, p) <= s.len(),
    decreases s.len() - p,
{
    if is_at(s, p, 0x5cu8) && is_at(s, p + 1, 0x0au8) {
        lemma_space_end_bounds(s, p + 2);
        lemma_skip_backslashes_bounds(s, space_end(s, p + 2));
    }
}

proof fn lemma_skip_comments_bounds(s: Seq<u8>, p: int)
    requires
        0 <= p <= s.len(),
    ensures
        skip_comments(s, p) matches Ok(q) ==> p <= q <= s.len(),
    decreases s.len() - p,
{
    if is_at(s, p, 0x2fu8) && is_at(s, p + 1, 0x2fu8) {
        lemma_line_comment_end_bounds(s, p + 2);
        lemma_space_end_bounds(s, line_comment_end(s, p + 2));
        lemma_skip_comments_bounds(s, space_end(s, line_comment_end(s, p + 2)));
    } else if is_at(s, p, 0x2fu8) && is_at(s, p + 1, 0x2au8) {
        match block_comment_end(s, p + 2) {
            None => {},
            Some(e) => {
                lemma_block_comment_end_bounds(s, p + 2);
                lemma_space_end_bounds(s, e);
                lemma_skip_comments_bounds(s, space_end(s, e));
            },
        }
    }
}

/// Once lexing gives nothing, it stands at the end of the input, and lexing from there
/// gives nothing again, in place and without warnings.
pub proof fn lemma_none_repeats(s: Seq<u8>, i: int)
    requires
        0 <= i <= s.len(),
        lex_step(s, i).0 is None,
    ensures
        lex_step(s, i).2 == s.len(),
        lex_step(s, s.len() as int) == (
            None::<Result<TokenView, LexError>>,
            s.len() as int,
            s.len() as int,
            no_warnings(),
        ),
{
    lemma_space_end_bounds(s, i);
    lemma_skip_backslashes_bounds(s, space_end(s, i));
    lemma_skip_comments_bounds(s, skip_backslashes(s, space_end(s, i)));
}

} // verus!
