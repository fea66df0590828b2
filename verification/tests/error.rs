use saltwater::data::error::{
    CompileError, CppError, Error, ErrorHandler, LexError, Radix, Recover, RecoverableResult, SemanticError,
    SyntaxError, Warning,
};
use saltwater::data::lex::{FileId, Keyword, Locatable, Location, Span, Token};

fn dummy_error() -> CompileError {
    Location::default().with(Error::Lex(LexError::UnterminatedComment))
}

fn new_error(error: Error) -> CompileError {
    Location::default().with(error)
}

/// Every error left in the handler, oldest first, read one at a time.
fn collect(error_handler: &mut ErrorHandler) -> Vec<CompileError> {
    let mut errors = Vec::new();
    while let Some(e) = error_handler.next() {
        errors.push(e);
    }
    errors
}

#[test]
fn test_error_handler_into_iterator() {
    let mut error_handler = ErrorHandler::new();
    error_handler.push_back(dummy_error());
    let errors = collect(&mut error_handler);
    assert_eq!(errors.len(), 1);
}

#[test]
fn test_compile_error_semantic() {
    assert_eq!(
        CompileError::semantic(Location::default().with("".to_string())).data,
        Error::Semantic(SemanticError::Generic("".to_string())),
    );
}

#[test]
fn test_compile_error_is_kind() {
    let e = Error::Lex(LexError::UnterminatedComment);
    assert!(e.is_lex_err());
    assert!(!e.is_semantic_err());
    assert!(!e.is_syntax_err());

    let e = Error::Semantic(SemanticError::Generic("".to_string()));
    assert!(!e.is_lex_err());
    assert!(e.is_semantic_err());
    assert!(!e.is_syntax_err());

    let e = Error::Syntax(SyntaxError::Generic("".to_string()));
    assert!(!e.is_lex_err());
    assert!(!e.is_semantic_err());
    assert!(e.is_syntax_err());
}

#[test]
fn test_compile_error_display() {
    assert_eq!(dummy_error().data.to_string(), "invalid token: unterminated /* comment");

    assert_eq!(
        Error::Semantic(SemanticError::Generic("bad code".to_string())).to_string(),
        "invalid program: bad code"
    );
}

#[test]
fn test_recover_error() {
    let mut error_handler = ErrorHandler::new();
    let r: RecoverableResult<i32> = Ok(1);
    assert_eq!(r.recover(&mut error_handler), 1);
    assert_eq!(error_handler.pop_front(), None);

    let mut error_handler = ErrorHandler::new();
    let r: RecoverableResult<i32> = Err((dummy_error(), 42));
    assert_eq!(r.recover(&mut error_handler), 42);
    let errors = collect(&mut error_handler);
    assert_eq!(errors, vec![dummy_error()]);
}

#[test]
fn test_recover_multiple_errors() {
    let mut error_handler = ErrorHandler::new();
    let r: RecoverableResult<i32, Vec<CompileError>> = Ok(1);
    assert_eq!(r.recover(&mut error_handler), 1);
    assert_eq!(error_handler.pop_front(), None);

    let mut error_handler = ErrorHandler::new();
    let r: RecoverableResult<i32, Vec<CompileError>> = Err((
        vec![dummy_error(), new_error(Error::Semantic(SemanticError::Generic("pears".to_string())))],
        42,
    ));
    assert_eq!(r.recover(&mut error_handler), 42);
    let errors = collect(&mut error_handler);
    assert_eq!(
        errors,
        vec![dummy_error(), new_error(Error::Semantic(SemanticError::Generic("pears".to_string()))),]
    );
}

fn at(start: u32, end: u32) -> Location {
    Location { span: Span { start, end }, file: FileId(0) }
}

#[test]
fn error_handler_is_first_in_first_out() {
    let mut h: ErrorHandler = ErrorHandler::new();
    h.error(Error::Lex(LexError::EmptyChar), at(0, 1));
    h.push_back(at(2, 3).with(Error::Lex(LexError::NewlineInChar)));
    h.extend(vec![at(4, 5).with(Error::Syntax(SyntaxError::MissingPrimary))]);
    let first = h.pop_front().unwrap();
    assert_eq!(first.data, Error::Lex(LexError::EmptyChar));
    assert_eq!(first.location(), at(0, 1));
    let rest = h.drain_errors();
    assert_eq!(rest.len(), 2);
    assert_eq!(rest[0].location, at(2, 3));
    assert_eq!(rest[1].location, at(4, 5));
    assert!(h.pop_front().is_none());
}

#[test]
fn error_handler_append_moves_everything() {
    let mut a: ErrorHandler = ErrorHandler::default();
    let mut b: ErrorHandler = ErrorHandler::new();
    a.error(Error::Lex(LexError::EmptyChar), at(0, 1));
    b.error(Error::Lex(LexError::FloatUnderflow), at(1, 2));
    b.warn(Warning::ImplicitInt, at(3, 4));
    a.append(&mut b);
    assert_eq!(a.warnings().len(), 1);
    assert_eq!(a.warnings()[0].location, at(3, 4));
    assert!(b.warnings().is_empty());
    assert!(b.pop_front().is_none());
    let errors = collect(&mut a);
    assert_eq!(errors.len(), 2);
    assert_eq!(errors[1].data, Error::Lex(LexError::FloatUnderflow));
}

#[test]
fn located_values_compare_by_data() {
    assert_eq!(at(0, 1).with(3), at(5, 9).with(3));
    assert_ne!(at(0, 1).with(3), at(0, 1).with(4));
    assert_eq!(Locatable::new(7, at(1, 2)).map(|x| x + 1), at(1, 2).with(8));
    assert_eq!(Locatable::new(7, at(1, 2)).map(|x| x + 1).location, at(1, 2));
}

#[test]
fn conversions_into_errors() {
    let e: CompileError = at(1, 2).with(LexError::EmptyChar).into();
    assert_eq!(e.data, Error::Lex(LexError::EmptyChar));
    assert_eq!(e.location, at(1, 2));
    let e: CompileError = at(1, 2).with(SyntaxError::ExpectedType).into();
    assert!(e.is_syntax_err());
    let e: CompileError = at(1, 2).with(CppError::EmptyDefine).into();
    assert_eq!(e.data, Error::PreProcessor(CppError::EmptyDefine));
    let e: CompileError = at(1, 2).with("oops".to_string()).into();
    assert!(e.is_semantic_err());
    let e: Locatable<SemanticError> = at(1, 2).with("oops".to_string()).into();
    assert_eq!(e.data, SemanticError::Generic("oops".to_string()));
    let e: CompileError = at(1, 2).with(SemanticError::DivideByZero).into();
    assert_eq!(e.data, Error::Semantic(SemanticError::DivideByZero));
    assert_eq!(Warning::from("w".to_string()), Warning::Generic("w".to_string()));
    assert_eq!(SyntaxError::from("s".to_string()), SyntaxError::Generic("s".to_string()));
    assert_eq!(Error::from(LexError::EmptyChar), Error::Lex(LexError::EmptyChar));
}

#[test]
fn messages_of_each_kind() {
    assert_eq!(SemanticError::TooLong(3).to_string(), "'long long long' is too long for rcc");
    assert_eq!(SemanticError::TooLong(0).to_string(), "'' is too long for rcc");
    assert_eq!(
        SemanticError::WrongArgumentNumber(2, 3).to_string(),
        "too many arguments to function call: expected 2, have 3"
    );
    assert_eq!(
        SemanticError::WrongArgumentNumber(3, 2).to_string(),
        "too few arguments to function call: expected 3, have 2"
    );
    assert_eq!(SemanticError::ConstOverflow { is_positive: false }.to_string(), "negative overflow in expresson");
    assert_eq!(
        SemanticError::DuplicateCase { is_default: true }.to_string(),
        "cannot have multiple default cases in a switch statement"
    );
    assert_eq!(SemanticError::UndeclaredVar("x".to_string()).to_string(), "use of undeclared identifier 'x'");
    assert_eq!(
        SyntaxError::NotAStatement(Keyword::While).to_string(),
        "expected statement, got while"
    );
    assert_eq!(SyntaxError::ExpectedId(None).to_string(), "expected identifier, got '<end-of-file>'");
    assert_eq!(SyntaxError::ExpectedId(Some(Token::Semicolon)).to_string(), "expected identifier, got ';'");
    assert_eq!(
        CppError::User(vec![Token::Id(b"stop".to_vec()), Token::Plus, Token::Id(b"go".to_vec())]).to_string(),
        "#error stop + go"
    );
    assert_eq!(CppError::User(vec![]).to_string(), "#error ");
    assert_eq!(CppError::UnexpectedElif { early: true }.to_string(), "#elif without #if");
    assert_eq!(CppError::TooFewArguments(2, 1).to_string(), "wrong number of arguments: expected 2, got 1");
    assert_eq!(
        LexError::MissingEndQuote { string: true }.to_string(),
        "missing terminating \" character in string literal"
    );
    assert_eq!(
        LexError::MissingEndQuote { string: false }.to_string(),
        "missing terminating ' character in character literal"
    );
    assert_eq!(
        LexError::IntegerOverflow { is_signed: Some(false) }.to_string(),
        "overflow while parsing unsigned integer literal"
    );
    assert_eq!(LexError::IntegerOverflow { is_signed: None }.to_string(), "overflow while parsing integer literal");
    assert_eq!(
        LexError::InvalidDigit { digit: 9, radix: Radix::Octal }.to_string(),
        "invalid digit 9 in octal constant"
    );
    assert_eq!(
        LexError::CharEscapeOutOfRange(Radix::Hexadecimal).to_string(),
        "hexadecimal character escape out of range"
    );
    assert_eq!(LexError::UnknownToken('$').to_string(), "unknown token: '$'");
    assert_eq!(Warning::ExtraneousSemicolon("struct").to_string(), "extraneous semicolon in struct");
    assert_eq!(Warning::User(vec![Token::Id(b"hey".to_vec())]).to_string(), "#warning hey");
    assert_eq!(
        Error::PreProcessor(CppError::EmptyInclude).to_string(),
        "invalid macro: empty filename"
    );
    assert_eq!(
        Error::Syntax(SyntaxError::MissingFunctionName).to_string(),
        "invalid syntax: function definitions must have a name"
    );
    assert_eq!(Radix::Binary.as_str(), "binary");
}

#[test]
fn append_converts_the_errors() {
    let mut lex_errors: ErrorHandler<LexError> = ErrorHandler::new();
    lex_errors.error(LexError::NewlineInString, at(3, 4));
    lex_errors.warn(Warning::BinaryLiteral, at(0, 2));
    let mut all: ErrorHandler = ErrorHandler::new();
    all.error(Error::Syntax(SyntaxError::ExpectedType), at(0, 1));
    all.append(&mut lex_errors);
    assert!(lex_errors.pop_front().is_none());
    assert!(lex_errors.warnings().is_empty());
    let errors = collect(&mut all);
    assert_eq!(errors.len(), 2);
    assert_eq!(errors[1].data, Error::Lex(LexError::NewlineInString));
    assert_eq!(errors[1].location, at(3, 4));
    assert_eq!(all.warnings()[0].data, Warning::BinaryLiteral);
}
