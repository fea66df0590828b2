use std::cmp::Ordering;

use saltwater::data::lex::{
    AssignmentToken, ComparisonToken, FileId, FloatCC, IntCC, Keyword, Literal, LiteralToken, Location, Span,
    Token,
};
use saltwater::Opt;

fn at(file: u32, start: u32, end: u32) -> Location {
    Location { span: Span { start, end }, file: FileId(file) }
}

#[test]
fn locations_order_by_span_within_a_file() {
    let a = at(0, 1, 4);
    let b = at(0, 2, 3);
    let c = at(0, 2, 9);
    assert_eq!(a.partial_cmp(&b), Some(Ordering::Less));
    assert_eq!(b.partial_cmp(&a), Some(Ordering::Greater));
    assert_eq!(b.partial_cmp(&c), Some(Ordering::Less));
    assert!(a < c);
    assert_eq!(a.partial_cmp(&a), Some(Ordering::Equal));
    assert_eq!(a.partial_cmp(&at(1, 1, 4)), None);
    assert!(!(a < at(1, 5, 6)) && !(a > at(1, 5, 6)));
    assert_eq!(Location::default(), at(0, 0, 0));
}

#[test]
fn comparison_condition_codes() {
    assert_eq!(ComparisonToken::Less.to_int_compare(true), IntCC::SignedLessThan);
    assert_eq!(ComparisonToken::Less.to_int_compare(false), IntCC::UnsignedLessThan);
    assert_eq!(ComparisonToken::GreaterEqual.to_int_compare(false), IntCC::UnsignedGreaterThanOrEqual);
    assert_eq!(ComparisonToken::EqualEqual.to_int_compare(false), IntCC::Equal);
    assert_eq!(ComparisonToken::NotEqual.to_int_compare(true), IntCC::NotEqual);
    assert_eq!(ComparisonToken::LessEqual.to_float_compare(), FloatCC::LessThanOrEqual);
    assert_eq!(ComparisonToken::Greater.to_float_compare(), FloatCC::GreaterThan);
}

#[test]
fn assignment_operators() {
    assert_eq!(AssignmentToken::PlusEqual.without_assignment(), Token::Plus);
    assert_eq!(AssignmentToken::LeftEqual.without_assignment(), Token::ShiftLeft);
    assert_eq!(AssignmentToken::Equal.without_assignment(), Token::Assignment(AssignmentToken::Equal));
    assert_eq!(AssignmentToken::XorEqual.to_string(), "^=");
    assert_eq!(Token::Assignment(AssignmentToken::RightEqual).to_string(), ">>=");
}

#[test]
fn spelling_of_tokens() {
    assert_eq!(Keyword::While.to_string(), "while");
    assert_eq!(Keyword::ThreadLocal.as_str(), "_ThreadLocal");
    assert_eq!(Keyword::VaList.to_string(), "va_list");
    assert_eq!(Keyword::StaticAssert.to_string(), "_StaticAssert");
    assert_eq!(ComparisonToken::NotEqual.to_string(), "!=");
    assert_eq!(Token::Keyword(Keyword::Sizeof).to_string(), "sizeof");
    assert_eq!(Token::StructDeref.to_string(), "->");
    assert_eq!(Token::Id(b"main".to_vec()).to_string(), "main");
    assert_eq!(Token::Literal(LiteralToken::Char(97)).to_string(), "97");
    assert_eq!(Token::Literal(LiteralToken::Str(b"hi".to_vec())).to_string(), "\"hi\"");
    assert_eq!(LiteralToken::Float(b"1.5e3".to_vec()).to_string(), "1.5e3");
    assert_eq!(Literal::Int(i64::MIN).to_string(), "-9223372036854775808");
    assert_eq!(Literal::UnsignedInt(u64::MAX).to_string(), "18446744073709551615");
    assert_eq!(Token::from(ComparisonToken::Less), Token::Comparison(ComparisonToken::Less));
    assert_eq!(Token::from(LiteralToken::Char(1)), Token::Literal(LiteralToken::Char(1)));
}

#[test]
fn default_options() {
    let opt = Opt::default();
    assert_eq!(opt.filename, "<default>");
    assert!(!opt.debug_lex && !opt.debug_ast && !opt.debug_asm && !opt.no_link);
    assert_eq!(opt.max_errors, None);
}
