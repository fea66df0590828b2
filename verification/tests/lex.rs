use saltwater::data::error::{CompileResult, Error, LexError, Radix, Warning};
use saltwater::data::lex::{
    AssignmentToken, ComparisonToken, FileId, Literal, LiteralToken, Locatable, Location, Span, Token,
};
use saltwater::lex::Lexer;

type LexType = CompileResult<Locatable<Token>>;

/// All the tokens of `input`, as a file of its own.
fn cpp_no_newline(input: &str) -> Vec<LexType> {
    let mut lexer = Lexer::new(FileId(0), input.as_bytes().to_vec());
    let mut tokens = Vec::new();
    while let Some(token) = lexer.next_token() {
        tokens.push(token);
    }
    tokens
}

/// All the tokens of `input` followed by a newline, as a source file ends.
fn lex_all(input: &str) -> Vec<LexType> {
    cpp_no_newline(&format!("{}\n", input))
}

fn lex(input: &str) -> Option<LexType> {
    let mut lexed = lex_all(input);
    assert!(lexed.len() <= 1, "too many lexemes for {}: {:?}", input, lexed);
    lexed.pop()
}

fn assert_int(s: &str, expected: i64) {
    let ok = match lex(s) {
        Some(Ok(Locatable { data: Token::Literal(lit @ LiteralToken::Int(_)), .. })) => {
            lit.parse() == Ok(Literal::Int(expected))
        }
        _ => false,
    };
    assert!(ok, "{} != {}", s, expected);
}

fn assert_err(s: &str) {
    let lexed = lex_all(s);
    assert!(lexed.iter().any(|e| e.is_err()), "{:?} is not an error (from {})", &lexed, s);
}

#[test]
fn test_int_literals() {
    assert_int("10", 10);
    assert_int("0x10", 16);
    assert_int("0b10", 2);
    assert_int("010", 8);
    assert_int("02l", 2);
    assert_int("0L", 0);
    assert_int("0xff", 255);
    assert_int("0xFF", 255);
    assert_err("0b");
    assert_err("0x");
    assert_err("09");
    assert_eq!(lex_all("1a").len(), 2);
}

#[test]
fn test_num_errors() {
    assert_err("1e");
    assert_err("1e.");
    assert_eq!(lex_all("1e1.0").len(), 2);
}

fn lots_of(c: char) -> String {
    let mut buf = Vec::new();
    buf.resize(8096, c);
    buf.into_iter().collect()
}

#[test]
fn test_lots_of_whitespace() {
    assert_eq!(lex(&lots_of(' ')), None);
    assert_eq!(lex(&lots_of('\t')), None);
    assert_eq!(lex(&lots_of('\n')), None);
}

#[test]
fn test_comments() {
    assert!(lex("/* this is a comment /* /* /* */").is_none());
    assert!(lex("// this is a comment // /// // ").is_none());
    assert!(lex("/*/ this is part of the comment */").is_none());
    assert_eq!(
        lex_all(
            "/* make sure it finds things _after_ comments */
    int i;"
        )
        .len(),
        3
    );
    let bad_comment = lex("/* unterminated comments are an error ");
    assert!(
        bad_comment.is_some() && bad_comment.as_ref().unwrap().is_err(),
        "expected unterminated comment err, got {:?}",
        bad_comment
    );
    // check for stack overflow
    assert_eq!(lex(&"//".repeat(10_000)), None);
    assert_eq!(lex(&"/* */".repeat(10_000)), None);
}

#[test]
fn test_location() {
    // 2 for newline
    assert_eq!(lex("\"").unwrap().unwrap_err().location.span, Span { start: 0, end: 2 });
}

#[test]
fn test_for_loop() {
    assert!(lex_all(
        "for (int i = 0; i < 100; ++i {
        a[i] = i << 2 + i*4;
        }"
    )
    .into_iter()
    .all(|x| x.is_ok()))
}

#[test]
fn test_plus() {
    let parse = lex("+");
    assert_eq!(
        parse,
        Some(Ok(Locatable {
            data: Token::Plus,
            location: Location::default(),
        }))
    )
}

/// The value of a floating constant, from the spelling the lexer keeps of it.
fn float_value(spelling: &[u8]) -> f64 {
    let s = std::str::from_utf8(spelling).unwrap();
    if s.starts_with("0x") {
        hexf_parse::parse_hexf64(s, false).unwrap()
    } else {
        s.parse().unwrap()
    }
}

/// Whether two literal tokens stand for the same value.
fn same_literal(a: &LiteralToken, b: &LiteralToken) -> bool {
    match (a.parse(), b.parse()) {
        (Ok(Literal::Float(x)), Ok(Literal::Float(y))) => float_value(&x) == float_value(&y),
        (x, y) => x == y,
    }
}

fn match_data_eq(lexed: &Token, other: &Token) -> bool {
    match (lexed, other) {
        (Token::Literal(lexed), Token::Literal(other)) => same_literal(lexed, other),
        (lexed, other) => lexed == other,
    }
}

fn match_all(lexed: &[LexType], expected: &[Token]) -> bool {
    lexed.iter().zip(expected).all(|(actual, expected)| match actual {
        Ok(token) => match_data_eq(&token.data, expected),
        _ => false,
    })
}

fn match_char(lexed: Option<LexType>, expected: u8) -> bool {
    match lexed {
        Some(Ok(Locatable { data: Token::Literal(lit @ LiteralToken::Char(_)), .. })) => {
            lit.parse() == Ok(Literal::Char(expected))
        }
        _ => false,
    }
}

fn assert_float(s: &str, expected: f64) {
    let lexed = lex(s);
    let ok = match &lexed {
        Some(Ok(Locatable { data: Token::Literal(lit @ LiteralToken::Float(_)), .. })) => match lit.parse() {
            Ok(Literal::Float(b)) => float_value(&b) == expected,
            _ => false,
        },
        _ => false,
    };
    assert!(ok, "({}) {:?} != {}", s, lexed, expected);
}

fn spelled(x: impl ToString) -> Vec<u8> {
    x.to_string().into_bytes()
}

#[test]
fn test_ellipses() {
    assert!(match_all(
        &lex_all("...;...;.."),
        &[Token::Ellipsis, Token::Semicolon, Token::Ellipsis, Token::Semicolon, Token::Dot, Token::Dot,]
    ));
}

#[test]
fn test_overflow() {
    let lexed = lex("10000000000000000000000");
    match lexed {
        Some(Ok(Locatable { data: Token::Literal(lit @ LiteralToken::Int(_)), .. })) => {
            assert!(lit.parse().is_err(), "No overflow")
        }
        _ => panic!("Not an integer"),
    };
}

#[test]
fn test_float_literals() {
    assert_float("0.1", 0.1);
    assert_float(".1", 0.1);
    for i in 0..10 {
        assert_float(&format!("1{}e{}", "0".repeat(i), 10 - i), 1e10);
    }
    assert!(match_all(&lex_all("-1"), &[Token::Minus, LiteralToken::Int(spelled(1)).into()]));
    assert!(match_all(
        &lex_all("-1e10"),
        &[Token::Minus, LiteralToken::Float(spelled(10_000_000_000.0)).into()]
    ));
    let lexed = lex("9223372036854775807u");
    let ok = match &lexed {
        Some(Ok(t)) => match_data_eq(&t.data, &LiteralToken::UnsignedInt(spelled(9_223_372_036_854_775_807u64)).into()),
        _ => false,
    };
    assert!(ok);
    assert_float("0x.ep0", 0.875);
    assert_float("0x.ep-0l", 0.875);
    assert_float("0xe.p-4f", 0.875);
    assert_float("0xep-4f", 0.875);
    assert_float("0x.000000000000000000102p0", 1.333_828_737_741_757E-23);
    // DBL_MAX is actually 1.79769313486231570814527423731704357e+308L
    #[allow(clippy::excessive_precision)]
    let dbl_max = 1.797_693_134_862_315_730_8e+308;
    assert_float("1.797693134862315708e+308L", dbl_max);
    assert_float("9.88131291682e-324L", 9.881_312_916_82e-324);
    // DBL_MIN is actually 2.22507385850720138309023271733240406e-308L
    assert_float("2.225073858507201383e-308L", 2.225_073_858_507_201_4e-308);
}

#[test]
fn backslashes() {
    let a = Token::Id(b"a".to_vec());
    assert!(matches!(lex("\\\n    a"), Some(Ok(t)) if t.data == a));
    assert!(matches!(lex("\\\n    \\\n    \\\n    a"), Some(Ok(t)) if t.data == a));
    assert!(matches!(lex("\\\na"), Some(Ok(t)) if t.data == a));
    assert_err(r"\a");
}

#[test]
fn test_characters() {
    assert!(match_char(lex("'a'"), b'a'));
    assert!(match_char(lex("'0'"), b'0'));
    assert!(match_char(lex("'\\0'"), b'\0'));
    assert!(match_char(lex("'\\\\'"), b'\\'));
    assert!(match_char(lex("'\\n'"), b'\n'));
    assert!(match_char(lex("'\\r'"), b'\r'));
    assert!(match_char(lex("'\\\"'"), b'"'));
    assert!(match_char(lex("'\\''"), b'\''));
    assert!(match_char(lex("'\\a'"), b'\x07'));
    assert!(match_char(lex("'\\b'"), b'\x08'));
    assert!(match_char(lex("'\\v'"), b'\x0b'));
    assert!(match_char(lex("'\\f'"), b'\x0c'));
    assert!(match_char(lex("'\\t'"), b'\t'));
    assert!(match_char(lex("'\\?'"), b'?'));
    assert!(match_char(lex("'\\x00'"), b'\0'));
    // extra digits are allowed for hex escapes
    assert!(match_char(lex("'\\x00001'"), b'\x01'));
    // invalid ascii is allowed
    assert!(match_char(lex("'\\xff'"), b'\xff'));
    // out of range escapes should be caught
    assert!(lex("'\\xfff'").unwrap().unwrap_err().is_lex_err());
    assert!(lex("'\\777'").unwrap().unwrap_err().is_lex_err());
    // extra digits are not allowed for octal escapes
    assert!(lex("'\\0001'").unwrap().unwrap_err().is_lex_err());
    // chars past `f` aren't hex digits
    let invalid = r"'\xffuuuuuuuuuuuuuuuX'";
    assert!(lex(invalid).unwrap().unwrap_err().is_lex_err());

    // catch overflow in hex escapes
    let assert_overflow = |c: &str| match lex(c).unwrap().unwrap_err().data {
        Error::Lex(LexError::CharEscapeOutOfRange(Radix::Hexadecimal)) => {}
        _ => panic!("expected overflow error for {}", c),
    };
    assert_overflow("'\\xfff'");
    assert_overflow("'\\xfffffffffffffffffffffffffff'");
    assert_overflow(r"'\xff00000000000000ff'");
}

#[test]
fn lexer_stays_at_end() {
    let mut lexer = Lexer::new(FileId(3), b"a\n".to_vec());
    assert!(matches!(lexer.next_token(), Some(Ok(_))));
    assert!(lexer.next_token().is_none());
    assert!(lexer.next_token().is_none());
}

#[test]
fn token_spans_follow_each_other() {
    let tokens = lex_all("int  x=10;");
    let spans: Vec<Span> = tokens.iter().map(|t| t.as_ref().unwrap().location.span).collect();
    assert_eq!(
        spans,
        vec![
            Span { start: 0, end: 3 },
            Span { start: 5, end: 6 },
            Span { start: 6, end: 7 },
            Span { start: 7, end: 9 },
            Span { start: 9, end: 10 },
        ]
    );
    for t in &tokens {
        assert_eq!(t.as_ref().unwrap().location.file, FileId(0));
    }
}

#[test]
fn binary_literal_gives_a_warning() {
    let mut lexer = Lexer::new(FileId(1), b"0b101 07\n".to_vec());
    let first = lexer.next_token().unwrap().unwrap();
    assert!(matches!(&first.data, Token::Literal(lit) if lit.parse() == Ok(Literal::Int(5))));
    let second = lexer.next_token().unwrap().unwrap();
    assert!(matches!(&second.data, Token::Literal(lit) if lit.parse() == Ok(Literal::Int(7))));
    let warnings = lexer.error_handler().warnings();
    assert_eq!(warnings.len(), 1);
    assert_eq!(warnings[0].data, Warning::BinaryLiteral);
    assert_eq!(warnings[0].location.span, Span { start: 0, end: 5 });
}

#[test]
fn unknown_escape_gives_a_warning() {
    let mut lexer = Lexer::new(FileId(0), b"'\\q'\n".to_vec());
    let tok = lexer.next_token().unwrap().unwrap();
    assert!(matches!(&tok.data, Token::Literal(lit) if lit.parse() == Ok(Literal::Char(b'q'))));
    let warnings = lexer.error_handler().warnings();
    assert_eq!(warnings.len(), 1);
    assert_eq!(warnings[0].data, Warning::UnknownCharEscape(b'q'));
    assert_eq!(warnings[0].data.to_string(), "unknown character escape '\\113'");
}

#[test]
fn lex_errors_of_each_kind() {
    let data = |s: &str| lex(s).unwrap().unwrap_err().data;
    assert_eq!(data("'ab'"), Error::Lex(LexError::MultiCharCharLiteral));
    assert_eq!(data("''"), Error::Lex(LexError::EmptyChar));
    assert_eq!(data("0x"), Error::Lex(LexError::MissingDigits(Radix::Hexadecimal)));
    assert_eq!(data("0b"), Error::Lex(LexError::MissingDigits(Radix::Binary)));
    assert_eq!(data("1e"), Error::Lex(LexError::ExponentMissingDigits));
    assert_eq!(data("@"), Error::Lex(LexError::UnknownToken('@')));
    let octal = lex_all("09");
    assert_eq!(octal[0].as_ref().unwrap_err().data, Error::Lex(LexError::InvalidDigit { digit: 9, radix: Radix::Octal }));
    assert_eq!(data("/* open"), Error::Lex(LexError::UnterminatedComment));
    let all = lex_all("\"abc");
    assert_eq!(all[0].as_ref().unwrap_err().data, Error::Lex(LexError::NewlineInString));
}

#[test]
fn literal_values() {
    let parse = |s: &str| match lex(s) {
        Some(Ok(Locatable { data: Token::Literal(lit), .. })) => lit.parse(),
        other => panic!("not a literal: {:?}", other),
    };
    assert_eq!(parse("9223372036854775807"), Ok(Literal::Int(9223372036854775807)));
    assert_eq!(parse("9223372036854775808"), Err(LexError::IntegerOverflow { is_signed: Some(true) }));
    assert_eq!(parse("18446744073709551615u"), Ok(Literal::UnsignedInt(18446744073709551615)));
    assert_eq!(parse("18446744073709551616u"), Err(LexError::IntegerOverflow { is_signed: None }));
    assert_eq!(parse("0777"), Ok(Literal::Int(511)));
    assert_eq!(parse("\"hi\""), Ok(Literal::Str(b"hi\0".to_vec())));
    assert!(Literal::Int(0).is_zero());
    assert!(Literal::Char(0).is_zero());
    assert!(!Literal::UnsignedInt(3).is_zero());
}

#[test]
fn token_text_lexes_back() {
    let tokens = vec![
        Token::PlusPlus,
        Token::MinusMinus,
        Token::ShiftRight,
        Token::ShiftLeft,
        Token::Plus,
        Token::Minus,
        Token::Star,
        Token::Divide,
        Token::Xor,
        Token::Ampersand,
        Token::LogicalAnd,
        Token::BitwiseOr,
        Token::LogicalOr,
        Token::BinaryNot,
        Token::LogicalNot,
        Token::LeftBrace,
        Token::RightBrace,
        Token::LeftBracket,
        Token::RightBracket,
        Token::LeftParen,
        Token::RightParen,
        Token::Semicolon,
        Token::Colon,
        Token::Comma,
        Token::Dot,
        Token::Question,
        Token::Mod,
        Token::Hash,
        Token::Ellipsis,
        Token::StructDeref,
        Token::Comparison(ComparisonToken::LessEqual),
        Token::Comparison(ComparisonToken::NotEqual),
        Token::Assignment(AssignmentToken::LeftEqual),
        Token::Assignment(AssignmentToken::XorEqual),
        Token::Id(b"_x1".to_vec()),
    ];
    for t in tokens {
        let text = t.to_string();
        let lexed = lex(&text).unwrap().unwrap();
        assert_eq!(lexed.data, t, "{}", text);
        assert_eq!(lexed.location.span, Span { start: 0, end: text.len() as u32 });
    }
}

#[test]
fn number_text_lexes_back() {
    for n in [0i64, 7, 10, 12345, i64::MAX] {
        let text = Literal::Int(n).to_string();
        match lex(&text) {
            Some(Ok(Locatable { data: Token::Literal(lit @ LiteralToken::Int(_)), .. })) => {
                assert_eq!(lit.parse(), Ok(Literal::Int(n)))
            }
            other => panic!("{} lexed as {:?}", text, other),
        }
    }
    assert_eq!(Literal::Int(-5).to_string(), "-5");
    assert_eq!(Literal::Str(b"a".to_vec()).to_string(), "\"a\"");
}

#[test]
fn lexing_leaves_the_error_queue_empty() {
    let mut lexer = Lexer::new(FileId(0), b"0b10 '\\q' @ \"x\n".to_vec());
    let mut errors = 0;
    while let Some(t) = lexer.next_token() {
        if t.is_err() {
            errors += 1;
        }
    }
    assert_eq!(errors, 2);
    assert_eq!(lexer.error_handler().warnings().len(), 2);
    assert!(lexer.error_handler().clone().pop_front().is_none());
}

#[test]
fn multi_byte_character_literal() {
    let all = lex_all("'é'");
    assert_eq!(all.len(), 1);
    assert_eq!(all[0].as_ref().unwrap_err().data, Error::Lex(LexError::MultiByteCharLiteral));
    assert_eq!(LexError::MultiByteCharLiteral.to_string(), "multi-byte unicode character literal");
    // a byte outside ASCII written as an escape is a character
    assert!(match_char(lex("'\\xe9'"), 0xe9));
    assert!(match_char(lex("'\\351'"), 0xe9));
}

#[test]
fn peek_reads_without_consuming() {
    let mut lexer = Lexer::new(FileId(0), b"ab".to_vec());
    assert_eq!(lexer.peek(), Some(b'a'));
    assert_eq!(lexer.peek(), Some(b'a'));
    assert_eq!(lexer.next_char(), Some(b'a'));
    assert_eq!(lexer.peek(), Some(b'b'));
    assert_eq!(lexer.next_char(), Some(b'b'));
    assert_eq!(lexer.peek(), None);
    assert_eq!(lexer.next_char(), None);
}

#[test]
fn none_repeats_after_the_end() {
    let mut lexer = Lexer::new(FileId(0), b"x /* c */ \n  ".to_vec());
    assert!(lexer.next_token().unwrap().is_ok());
    for _ in 0..3 {
        assert!(lexer.next_token().is_none());
    }
}
