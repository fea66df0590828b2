//! How the lexer reads back the text of the tokens it gives.
use vstd::prelude::*;

use super::grammar;
use super::{loc, step_matches};
use crate::data::error::{CompileResult, LexError};
use crate::data::lex::{
    literal_value, token_text, AssignmentToken, ComparisonToken, FileId, LiteralTokenView, LiteralView, Locatable, Token,
    TokenView,
};
use crate::text::decimal_digits;

verus! {

/// The bytes of a text written in ASCII.
pub open spec fn ascii_bytes(text: Seq<char>) -> Seq<u8> {
    text.map_values(|c: char| c as u8)
}

/// Whether a token is an operator or a punctuation mark, whose text the lexer reads
/// back as the token itself: every token but literals, identifiers, keywords and `=`
/// (whose text is not defined).
pub open spec fn is_operator(t: Token) -> bool {
    t@ is Plain && !(t is Keyword) && t != Token::Assignment(AssignmentToken::Equal)
}

/// Lexing the text of an operator or punctuation mark gives back that token, covering
/// the whole text, without warnings.
pub proof fn lemma_operator_text_lexes_back(t: Token)
    requires
        is_operator(t),
    ensures
        grammar::lex_step(ascii_bytes(token_text(t@)), 0) == (
            Some(Ok::<TokenView, LexError>(t@)),
            0int,
            token_text(t@).len() as int,
            grammar::no_warnings(),
        ),
{
    match t {
        Token::PlusPlus => {
            reveal_strlit("++");
        },
        Token::MinusMinus => {
            reveal_strlit("--");
        },
        Token::ShiftRight => {
            reveal_strlit(">>");
        },
        Token::ShiftLeft => {
            reveal_strlit("<<");
        },
        Token::Plus => {
            reveal_strlit("+");
        },
        Token::Minus => {
            reveal_strlit("-");
        },
        Token::Star => {
            reveal_strlit("*");
        },
        Token::Divide => {
            reveal_strlit("/");
        },
        Token::Xor => {
            reveal_strlit("^");
        },
        Token::Ampersand => {
            reveal_strlit("&");
        },
        Token::LogicalAnd => {
            reveal_strlit("&&");
        },
        Token::BitwiseOr => {
            reveal_strlit("|");
        },
        Token::LogicalOr => {
            reveal_strlit("||");
        },
        Token::BinaryNot => {
            reveal_strlit("~");
        },
        Token::LogicalNot => {
            reveal_strlit("!");
        },
        Token::LeftBrace => {
            reveal_strlit("{");
        },
        Token::RightBrace => {
            reveal_strlit("}");
        },
        Token::LeftBracket => {
            reveal_strlit("[");
        },
        Token::RightBracket => {
            reveal_strlit("]");
        },
        Token::LeftParen => {
            reveal_strlit("(");
        },
        Token::RightParen => {
            reveal_strlit(")");
        },
        Token::Semicolon => {
            reveal_strlit(";");
        },
        Token::Colon => {
            reveal_strlit(":");
        },
        Token::Comma => {
            reveal_strlit(",");
        },
        Token::Dot => {
            reveal_strlit(".");
        },
        Token::Question => {
            reveal_strlit("?");
        },
        Token::Mod => {
            reveal_strlit("%");
        },
        Token::Hash => {
            reveal_strlit("#");
        },
        Token::Ellipsis => {
            reveal_strlit("...");
        },
        Token::StructDeref => {
            reveal_strlit("->");
        },
        Token::Comparison(c) => match c {
            ComparisonToken::EqualEqual => {
                reveal_strlit("==");
            },
            ComparisonToken::NotEqual => {
                reveal_strlit("!=");
            },
            ComparisonToken::Less => {
                reveal_strlit("<");
            },
            ComparisonToken::LessEqual => {
                reveal_strlit("<=");
            },
            ComparisonToken::Greater => {
                reveal_strlit(">");
            },
            ComparisonToken::GreaterEqual => {
                reveal_strlit(">=");
            },
        },
        Token::Assignment(a) => match a {
            AssignmentToken::PlusEqual => {
                reveal_strlit("+");
                reveal_strlit("=");
            },
            AssignmentToken::MinusEqual => {
                reveal_strlit("-");
                reveal_strlit("=");
            },
            AssignmentToken::StarEqual => {
                reveal_strlit("*");
                reveal_strlit("=");
            },
            AssignmentToken::DivideEqual => {
                reveal_strlit("/");
                reveal_strlit("=");
            },
            AssignmentToken::ModEqual => {
                reveal_strlit("%");
                reveal_strlit("=");
            },
            AssignmentToken::AndEqual => {
                reveal_strlit("&");
                reveal_strlit("=");
            },
            AssignmentToken::OrEqual => {
                reveal_strlit("|");
                reveal_strlit("=");
            },
            AssignmentToken::LeftEqual => {
                reveal_strlit("<<");
                reveal_strlit("=");
            },
            AssignmentToken::RightEqual => {
                reveal_strlit(">>");
                reveal_strlit("=");
            },
            AssignmentToken::XorEqual => {
                reveal_strlit("^");
                reveal_strlit("=");
            },
            AssignmentToken::Equal => {},
        },
        _ => {},
    }
}

/// A byte that may start a C identifier: `a`-`z`, `A`-`Z` or `_`.
pub open spec fn is_c_letter(c: u8) -> bool {
    (0x61u8 <= c && c <= 0x7au8) || (0x41u8 <= c && c <= 0x5au8) || c == 0x5fu8
}

/// A byte that may continue a C identifier: a letter, `_` or `0`-`9`.
pub open spec fn is_c_word_byte(c: u8) -> bool {
    is_c_letter(c) || (0x30u8 <= c && c <= 0x39u8)
}

/// Whether `name` is spelled as a C identifier, `[a-zA-Z_][a-zA-Z0-9_]*`.
pub open spec fn is_identifier(name: Seq<u8>) -> bool {
    &&& name.len() > 0
    &&& is_c_letter(name[0])
    &&& forall|i: int| 0 <= i < name.len() ==> is_c_word_byte(#[trigger] name[i])
}

proof fn lemma_id_end_run(s: Seq<u8>, i: int, n: int)
    requires
        0 <= i <= n <= s.len(),
        forall|k: int| i <= k < n ==> is_c_word_byte(#[trigger] s[k]),
        n == s.len() || !is_c_word_byte(s[n]),
    ensures
        grammar::id_end(s, i) == n,
    decreases n - i,
{
    if i < n {
        lemma_id_end_run(s, i + 1, n);
    }
}

/// An identifier lexes as itself, covering its whole spelling, without warnings.
pub proof fn lemma_identifier_lexes_back(name: Seq<u8>)
    requires
        is_identifier(name),
    ensures
        grammar::lex_step(name, 0) == (
            Some(Ok::<TokenView, LexError>(TokenView::Id(name))),
            0int,
            name.len() as int,
            grammar::no_warnings(),
        ),
{
    lemma_identifier_then_other(name, Seq::empty());
    assert(name + Seq::<u8>::empty() =~= name);
}

/// An identifier followed by a byte that cannot continue it (or by nothing) lexes as
/// one identifier token covering exactly its spelling, without warnings.
pub proof fn lemma_identifier_then_other(name: Seq<u8>, rest: Seq<u8>)
    requires
        is_identifier(name),
        rest.len() == 0 || !is_c_word_byte(rest[0]),
    ensures
        grammar::lex_step(name + rest, 0) == (
            Some(Ok::<TokenView, LexError>(TokenView::Id(name))),
            0int,
            name.len() as int,
            grammar::no_warnings(),
        ),
{
    let s = name + rest;
    assert forall|k: int| 1 <= k < name.len() implies is_c_word_byte(#[trigger] s[k]) by {
        assert(s[k] == name[k]);
    }
    if rest.len() > 0 {
        assert(s[name.len() as int] == rest[0]);
    }
    lemma_id_end_run(s, 1, name.len() as int);
    assert(s.subrange(0, name.len() as int) =~= name);
}

/// What the lexer gives at the start of an identifier followed by a byte that cannot
/// continue it: one identifier token with that spelling, covering it.
pub proof fn lemma_lexer_reads_identifier(
    name: Seq<u8>,
    rest: Seq<u8>,
    r: Option<CompileResult<Locatable<Token>>>,
    file: FileId,
)
    requires
        is_identifier(name),
        rest.len() == 0 || !is_c_word_byte(rest[0]),
        step_matches(r, name + rest, 0, file),
    ensures
        r matches Some(Ok(t)) && t.data@ == TokenView::Id(name) && t.location == loc(file, 0, name.len() as int),
{
    lemma_identifier_then_other(name, rest);
}

proof fn lemma_decimal_digits_facts(n: nat)
    ensures
        decimal_digits(n).len() > 0,
        forall|i: int| 0 <= i < decimal_digits(n).len() ==> grammar::is_digit(#[trigger] decimal_digits(n)[i]),
        n > 0 ==> decimal_digits(n)[0] != 0x30u8,
        n == 0 ==> decimal_digits(n) == seq![0x30u8],
        grammar::digits_value(decimal_digits(n), 10) == n,
    decreases n,
{
    if n >= 10 {
        let d = decimal_digits(n / 10);
        lemma_decimal_digits_facts(n / 10);
        let c = (48 + n % 10) as u8;
        assert(d.push(c).drop_last() =~= d);
        assert(decimal_digits(n) == d.push(c));
        assert forall|i: int| 0 <= i < d.push(c).len() implies grammar::is_digit(#[trigger] d.push(c)[i]) by {
            if i < d.len() {
                assert(d.push(c)[i] == d[i]);
            }
        }
        assert((n / 10) * 10 + n % 10 == n) by (nonlinear_arith);
        assert(grammar::hex_value(c) == Some((n % 10) as u32));
        assert(grammar::digits_value(d.push(c), 10) == grammar::digits_value(d, 10) * 10 + (n % 10));
        assert(grammar::digits_value(d, 10) * 10 == (n / 10) * 10);
    } else {
        let d = decimal_digits(n);
        assert(d.drop_last() =~= Seq::<u8>::empty());
        assert(grammar::hex_value(d.last()) == Some(n as u32));
        assert(grammar::digits_value(Seq::<u8>::empty(), 10) == 0);
        assert(grammar::digits_value(d, 10) == grammar::digits_value(d.drop_last(), 10) * 10 + n);
    }
}

proof fn lemma_digit_scan_decimal(s: Seq<u8>, i: int)
    requires
        0 <= i <= s.len(),
        forall|k: int| 0 <= k < s.len() ==> grammar::is_digit(#[trigger] s[k]),
    ensures
        grammar::digit_scan(s, i, 10) == Ok::<int, (u32, int)>(s.len() as int),
    decreases s.len() - i,
{
    if i < s.len() {
        lemma_digit_scan_decimal(s, i + 1);
    }
}

/// The decimal digits of a number lex as an integer literal spelled with them, covering
/// them all, and the literal's value is the number again.
pub proof fn lemma_decimal_lexes_back(n: u64)
    requires
        n <= i64::MAX,
    ensures
        grammar::lex_step(decimal_digits(n as nat), 0) == (
            Some(Ok::<TokenView, LexError>(TokenView::Literal(LiteralTokenView::Int(decimal_digits(n as nat))))),
            0int,
            decimal_digits(n as nat).len() as int,
            grammar::no_warnings(),
        ),
        literal_value(LiteralTokenView::Int(decimal_digits(n as nat))) == Ok::<LiteralView, LexError>(
            LiteralView::Int(n as i64),
        ),
{
    let s = decimal_digits(n as nat);
    lemma_decimal_digits_facts(n as nat);
    lemma_digit_scan_decimal(s, 1);
    assert(s.subrange(0, s.len() as int) =~= s);
    assert(s.skip(0) =~= s);
    if n == 0 {
        assert(grammar::digit_scan(s, 1, 8) == Ok::<int, (u32, int)>(1));
        assert(s.skip(1) =~= Seq::<u8>::empty());
    }
}

} // verus!
