use vstd::prelude::*;

use super::error::LexError;
use crate::text::{decimal_string, decimal_text, signed_decimal_string, signed_decimal_text, string_from_bytes, utf8_lossy};
use vstd::string::StringExecFns;
use vstd::std_specs::cmp::PartialEqSpec;
use vstd::std_specs::cmp::PartialEqSpecImpl;
use vstd::std_specs::cmp::PartialOrdSpecImpl;
use std::cmp::Ordering;

verus! {

/// Identifies one source file among those the compiler has read.
#[derive(Copy, Clone, Debug, PartialEq, Eq, Hash, Structural)]
pub struct FileId(pub u32);

/// A half-open range of byte offsets into a source file.
#[derive(Copy, Clone, Debug, PartialEq, Eq, Hash, Structural)]
pub struct Span {
    pub start: u32,
    pub end: u32,
}

/// Where a piece of code came from: a span in a file.
#[derive(Copy, Clone, Debug, PartialEq, Eq, Structural)]
pub struct Location {
    pub span: Span,
    pub file: FileId,
}

/// A value together with the place in the source it came from.
/// Two located values are equal when their data are equal, wherever they stand.
#[derive(Copy, Clone, Debug)]
pub struct Locatable<T> {
    pub data: T,
    pub location: Location,
}

impl<T> Locatable<T> {
    /// Apply `f` to the data, keeping the location.
    pub fn map<S, F: FnOnce(T) -> S>(self, f: F) -> (r: Locatable<S>)
        requires
            f.requires((self.data,)),
        ensures
            f.ensures((self.data,), r.data),
            r.location == self.location,
    {
        Locatable { data: f(self.data), location: self.location }
    }

    pub fn new(data: T, location: Location) -> (r: Self)
        ensures
            r.data == data,
            r.location == location,
    {
        Self { data, location }
    }
}

impl Default for FileId {
    fn default() -> (r: Self)
        ensures
            r == FileId(0),
    {
        FileId(0)
    }
}

impl Default for Span {
    fn default() -> (r: Self)
        ensures
            r == (Span { start: 0, end: 0 }),
    {
        Span { start: 0, end: 0 }
    }
}

impl Default for Location {
    /// The empty span at the start of file 0.
    fn default() -> (r: Self)
        ensures
            r == (Location { span: Span { start: 0, end: 0 }, file: FileId(0) }),
    {
        Location { span: Span { start: 0, end: 0 }, file: FileId(0) }
    }
}

/// Locations in the same file are ordered by where their spans start, then end;
/// locations in different files are unordered.
pub open spec fn location_order(a: Location, b: Location) -> Option<Ordering> {
    if a.file != b.file {
        None
    } else if a.span.start < b.span.start {
        Some(Ordering::Less)
    } else if a.span.start > b.span.start {
        Some(Ordering::Greater)
    } else if a.span.end < b.span.end {
        Some(Ordering::Less)
    } else if a.span.end > b.span.end {
        Some(Ordering::Greater)
    } else {
        Some(Ordering::Equal)
    }
}

impl PartialOrd for Location {
    fn partial_cmp(&self, other: &Location) -> (r: Option<Ordering>) {
        if self.file != other.file {
            None
        } else if self.span.start < other.span.start {
            Some(Ordering::Less)
        } else if self.span.start > other.span.start {
            Some(Ordering::Greater)
        } else if self.span.end < other.span.end {
            Some(Ordering::Less)
        } else if self.span.end > other.span.end {
            Some(Ordering::Greater)
        } else {
            Some(Ordering::Equal)
        }
    }
}

impl PartialOrdSpecImpl for Location {
    open spec fn obeys_partial_cmp_spec() -> bool {
        true
    }

    open spec fn partial_cmp_spec(&self, other: &Location) -> Option<Ordering> {
        location_order(*self, *other)
    }
}

impl<T: PartialEq> PartialEq for Locatable<T> {
    fn eq(&self, other: &Self) -> (r: bool) {
        self.data == other.data
    }
}

impl<T: PartialEq> PartialEqSpecImpl for Locatable<T> {
    open spec fn obeys_eq_spec() -> bool {
        T::obeys_eq_spec()
    }

    open spec fn eq_spec(&self, other: &Locatable<T>) -> bool {
        self.data.eq_spec(&other.data)
    }
}

impl<T: Eq> Eq for Locatable<T> {

}

impl Location {
    /// Attach this location to `data`.
    pub fn with<T>(self, data: T) -> (r: Locatable<T>)
        ensures
            r.data == data,
            r.location == self,
    {
        Locatable { data, location: self }
    }
}

#[derive(Clone, Copy, Debug, Eq, Hash, PartialEq, Structural)]
pub enum Keyword {
    // statements
    If,
    Else,
    Do,
    While,
    For,
    Switch,
    Case,
    Default,
    Break,
    Continue,
    Return,
    Goto,
    // types
    Char,
    Short,
    Int,
    Long,
    Float,
    Double,
    Void,
    Signed,
    Unsigned,
    Typedef,
    Union,
    Struct,
    Enum,
    // weird types
    Bool,
    Complex,
    Imaginary,
    VaList,
    // qualifiers
    Const,
    Volatile,
    Restrict,
    // weird qualifiers
    Atomic,
    ThreadLocal,
    // function qualifiers
    Inline,
    NoReturn,
    // storage classes
    Auto,
    Register,
    Static,
    Extern,
    // intrinsics
    Sizeof,
    Generic,
    StaticAssert,
    Alignas,
    Alignof,
}

#[derive(Copy, Clone, Debug, PartialEq, Eq, Structural)]
pub enum AssignmentToken {
    Equal,
    PlusEqual,
    MinusEqual,
    StarEqual,
    DivideEqual,
    ModEqual,
    LeftEqual,  // <<=
    RightEqual,  // >>=
    AndEqual,
    OrEqual,
    XorEqual,  // ^=
}

#[derive(Copy, Clone, Debug, PartialEq, Eq, Structural)]
pub enum ComparisonToken {
    Less,
    Greater,
    EqualEqual,
    NotEqual,
    LessEqual,
    GreaterEqual,
}

/// A literal as the lexer found it.
/// Numbers keep their spelling; their value is computed by `parse`.
/// A floating literal keeps a normalised spelling that a float parser accepts.
#[derive(Clone, Debug, PartialEq)]
pub enum LiteralToken {
    /// The digits of a signed integer literal, with its radix prefix, without suffixes.
    Int(Vec<u8>),
    /// The digits of an unsigned (`u`-suffixed) integer literal, with its radix prefix.
    UnsignedInt(Vec<u8>),
    /// The normalised spelling of a floating literal: digits, a `.`, and an optional exponent.
    /// Hexadecimal floats start with `0x` and use `p` for the exponent.
    Float(Vec<u8>),
    /// The bytes of a string literal, including a terminating zero byte.
    Str(Vec<u8>),
    /// The value of a character literal.
    Char(u8),
}

/// The value of a literal.
/// A floating literal keeps the normalised spelling that `LiteralToken::Float` holds.
#[derive(Clone, Debug, PartialEq)]
pub enum Literal {
    Int(i64),
    UnsignedInt(u64),
    Float(Vec<u8>),
    Str(Vec<u8>),
    Char(u8),
}

#[derive(Clone, Debug, PartialEq)]
pub enum Token {
    PlusPlus,
    MinusMinus,
    Assignment(AssignmentToken),
    Comparison(ComparisonToken),
    Plus,
    Minus,
    Star,
    Divide,
    Mod,
    Xor,
    Ampersand,
    LogicalAnd,
    BitwiseOr,
    LogicalOr,
    BinaryNot,  // ~
    LogicalNot,  // !
    ShiftRight,
    ShiftLeft,
    LeftBrace,  // {
    RightBrace,
    LeftBracket,  // [
    RightBracket,
    LeftParen,
    RightParen,
    Semicolon,
    Colon,
    Comma,
    Dot,
    Question,
    Keyword(Keyword),
    Literal(LiteralToken),
    Id(Vec<u8>),
    /// `#`, which only the preprocessor gives meaning to
    Hash,
    // Misc
    Ellipsis,
    StructDeref,  // ->
}

/// The mathematical content of a `LiteralToken`: its byte vectors seen as sequences.
pub enum LiteralTokenView {
    Int(Seq<u8>),
    UnsignedInt(Seq<u8>),
    Float(Seq<u8>),
    Str(Seq<u8>),
    Char(u8),
}

/// The mathematical content of a `Token`.
/// Tokens without payload stand for themselves under `Plain`.
pub enum TokenView {
    Plain(Token),
    Literal(LiteralTokenView),
    Id(Seq<u8>),
}

impl View for LiteralToken {
    type V = LiteralTokenView;

    open spec fn view(&self) -> LiteralTokenView {
        match self {
            LiteralToken::Int(v) => LiteralTokenView::Int(v@),
            LiteralToken::UnsignedInt(v) => LiteralTokenView::UnsignedInt(v@),
            LiteralToken::Float(v) => LiteralTokenView::Float(v@),
            LiteralToken::Str(v) => LiteralTokenView::Str(v@),
            LiteralToken::Char(c) => LiteralTokenView::Char(*c),
        }
    }
}

impl View for Token {
    type V = TokenView;

    open spec fn view(&self) -> TokenView {
        match self {
            Token::Literal(l) => TokenView::Literal(l@),
            Token::Id(v) => TokenView::Id(v@),
            _ => TokenView::Plain(*self),
        }
    }
}

/// How a keyword is spelled in C.
pub open spec fn keyword_text(k: Keyword) -> &'static str {
    match k {
        Keyword::If => "if",
        Keyword::Else => "else",
        Keyword::Do => "do",
        Keyword::While => "while",
        Keyword::For => "for",
        Keyword::Switch => "switch",
        Keyword::Case => "case",
        Keyword::Default => "default",
        Keyword::Break => "break",
        Keyword::Continue => "continue",
        Keyword::Return => "return",
        Keyword::Goto => "goto",
        Keyword::Char => "char",
        Keyword::Short => "short",
        Keyword::Int => "int",
        Keyword::Long => "long",
        Keyword::Float => "float",
        Keyword::Double => "double",
        Keyword::Void => "void",
        Keyword::Signed => "signed",
        Keyword::Unsigned => "unsigned",
        Keyword::Typedef => "typedef",
        Keyword::Union => "union",
        Keyword::Struct => "struct",
        Keyword::Enum => "enum",
        Keyword::Bool => "_Bool",
        Keyword::Complex => "_Complex",
        Keyword::Imaginary => "_Imaginary",
        Keyword::VaList => "va_list",
        Keyword::Const => "const",
        Keyword::Volatile => "volatile",
        Keyword::Restrict => "restrict",
        Keyword::Atomic => "_Atomic",
        Keyword::ThreadLocal => "_ThreadLocal",
        Keyword::Inline => "inline",
        Keyword::NoReturn => "_NoReturn",
        Keyword::Auto => "auto",
        Keyword::Register => "register",
        Keyword::Static => "static",
        Keyword::Extern => "extern",
        Keyword::Sizeof => "sizeof",
        Keyword::Generic => "_Generic",
        Keyword::StaticAssert => "_StaticAssert",
        Keyword::Alignas => "_Alignas",
        Keyword::Alignof => "_Alignof",
    }
}

impl Keyword {
    /// How the keyword is spelled in C.
    pub fn as_str(&self) -> (r: &'static str)
        ensures
            r == keyword_text(*self),
    {
        match self {
            Keyword::If => "if",
            Keyword::Else => "else",
            Keyword::Do => "do",
            Keyword::While => "while",
            Keyword::For => "for",
            Keyword::Switch => "switch",
            Keyword::Case => "case",
            Keyword::Default => "default",
            Keyword::Break => "break",
            Keyword::Continue => "continue",
            Keyword::Return => "return",
            Keyword::Goto => "goto",
            Keyword::Char => "char",
            Keyword::Short => "short",
            Keyword::Int => "int",
            Keyword::Long => "long",
            Keyword::Float => "float",
            Keyword::Double => "double",
            Keyword::Void => "void",
            Keyword::Signed => "signed",
            Keyword::Unsigned => "unsigned",
            Keyword::Typedef => "typedef",
            Keyword::Union => "union",
            Keyword::Struct => "struct",
            Keyword::Enum => "enum",
            Keyword::Bool => "_Bool",
            Keyword::Complex => "_Complex",
            Keyword::Imaginary => "_Imaginary",
            Keyword::VaList => "va_list",
            Keyword::Const => "const",
            Keyword::Volatile => "volatile",
            Keyword::Restrict => "restrict",
            Keyword::Atomic => "_Atomic",
            Keyword::ThreadLocal => "_ThreadLocal",
            Keyword::Inline => "inline",
            Keyword::NoReturn => "_NoReturn",
            Keyword::Auto => "auto",
            Keyword::Register => "register",
            Keyword::Static => "static",
            Keyword::Extern => "extern",
            Keyword::Sizeof => "sizeof",
            Keyword::Generic => "_Generic",
            Keyword::StaticAssert => "_StaticAssert",
            Keyword::Alignas => "_Alignas",
            Keyword::Alignof => "_Alignof",
        }
    }

    /// How the keyword is spelled in C.
    pub fn to_string(&self) -> (r: String)
        ensures
            r@ == keyword_text(*self)@,
    {
        String::from_str(self.as_str())
    }
}

/// How a comparison operator is spelled.
pub open spec fn comparison_text(c: ComparisonToken) -> &'static str {
    match c {
        ComparisonToken::EqualEqual => "==",
        ComparisonToken::NotEqual => "!=",
        ComparisonToken::Less => "<",
        ComparisonToken::LessEqual => "<=",
        ComparisonToken::Greater => ">",
        ComparisonToken::GreaterEqual => ">=",
    }
}

/// The condition codes of integer comparisons in the code generator.
#[derive(Copy, Clone, Debug, PartialEq, Eq, Structural)]
pub enum IntCC {
    Equal,
    NotEqual,
    SignedLessThan,
    SignedGreaterThanOrEqual,
    SignedGreaterThan,
    SignedLessThanOrEqual,
    UnsignedLessThan,
    UnsignedGreaterThanOrEqual,
    UnsignedGreaterThan,
    UnsignedLessThanOrEqual,
}

/// The condition codes of floating-point comparisons in the code generator.
#[derive(Copy, Clone, Debug, PartialEq, Eq, Structural)]
pub enum FloatCC {
    Equal,
    NotEqual,
    LessThan,
    LessThanOrEqual,
    GreaterThan,
    GreaterThanOrEqual,
}

impl ComparisonToken {
    /// How the operator is spelled.
    pub fn as_str(&self) -> (r: &'static str)
        ensures
            r == comparison_text(*self),
    {
        match self {
            ComparisonToken::EqualEqual => "==",
            ComparisonToken::NotEqual => "!=",
            ComparisonToken::Less => "<",
            ComparisonToken::LessEqual => "<=",
            ComparisonToken::Greater => ">",
            ComparisonToken::GreaterEqual => ">=",
        }
    }

    /// How the operator is spelled.
    pub fn to_string(&self) -> (r: String)
        ensures
            r@ == comparison_text(*self)@,
    {
        String::from_str(self.as_str())
    }

    /// The integer comparison this operator makes, signed or unsigned;
    /// `==` and `!=` do not depend on signedness.
    pub fn to_int_compare(self, signed: bool) -> (r: IntCC)
        ensures
            r == match (self, signed) {
                (ComparisonToken::Less, true) => IntCC::SignedLessThan,
                (ComparisonToken::Less, false) => IntCC::UnsignedLessThan,
                (ComparisonToken::LessEqual, true) => IntCC::SignedLessThanOrEqual,
                (ComparisonToken::LessEqual, false) => IntCC::UnsignedLessThanOrEqual,
                (ComparisonToken::Greater, true) => IntCC::SignedGreaterThan,
                (ComparisonToken::Greater, false) => IntCC::UnsignedGreaterThan,
                (ComparisonToken::GreaterEqual, true) => IntCC::SignedGreaterThanOrEqual,
                (ComparisonToken::GreaterEqual, false) => IntCC::UnsignedGreaterThanOrEqual,
                (ComparisonToken::EqualEqual, _) => IntCC::Equal,
                (ComparisonToken::NotEqual, _) => IntCC::NotEqual,
            },
    {
        match (self, signed) {
            (ComparisonToken::Less, true) => IntCC::SignedLessThan,
            (ComparisonToken::Less, false) => IntCC::UnsignedLessThan,
            (ComparisonToken::LessEqual, true) => IntCC::SignedLessThanOrEqual,
            (ComparisonToken::LessEqual, false) => IntCC::UnsignedLessThanOrEqual,
            (ComparisonToken::Greater, true) => IntCC::SignedGreaterThan,
            (ComparisonToken::Greater, false) => IntCC::UnsignedGreaterThan,
            (ComparisonToken::GreaterEqual, true) => IntCC::SignedGreaterThanOrEqual,
            (ComparisonToken::GreaterEqual, false) => IntCC::UnsignedGreaterThanOrEqual,
            (ComparisonToken::EqualEqual, _) => IntCC::Equal,
            (ComparisonToken::NotEqual, _) => IntCC::NotEqual,
        }
    }

    /// The floating-point comparison this operator makes.
    pub fn to_float_compare(self) -> (r: FloatCC)
        ensures
            r == match self {
                ComparisonToken::Less => FloatCC::LessThan,
                ComparisonToken::LessEqual => FloatCC::LessThanOrEqual,
                ComparisonToken::Greater => FloatCC::GreaterThan,
                ComparisonToken::GreaterEqual => FloatCC::GreaterThanOrEqual,
                ComparisonToken::EqualEqual => FloatCC::Equal,
                ComparisonToken::NotEqual => FloatCC::NotEqual,
            },
    {
        match self {
            ComparisonToken::Less => FloatCC::LessThan,
            ComparisonToken::LessEqual => FloatCC::LessThanOrEqual,
            ComparisonToken::Greater => FloatCC::GreaterThan,
            ComparisonToken::GreaterEqual => FloatCC::GreaterThanOrEqual,
            ComparisonToken::EqualEqual => FloatCC::Equal,
            ComparisonToken::NotEqual => FloatCC::NotEqual,
        }
    }
}

/// The binary operator of a compound assignment; `=` maps to itself.
pub open spec fn operator_of(a: AssignmentToken) -> Token {
    match a {
        AssignmentToken::Equal => Token::Assignment(AssignmentToken::Equal),
        AssignmentToken::PlusEqual => Token::Plus,
        AssignmentToken::MinusEqual => Token::Minus,
        AssignmentToken::StarEqual => Token::Star,
        AssignmentToken::DivideEqual => Token::Divide,
        AssignmentToken::ModEqual => Token::Mod,
        AssignmentToken::AndEqual => Token::Ampersand,
        AssignmentToken::OrEqual => Token::BitwiseOr,
        AssignmentToken::LeftEqual => Token::ShiftLeft,
        AssignmentToken::RightEqual => Token::ShiftRight,
        AssignmentToken::XorEqual => Token::Xor,
    }
}

/// How a token without payload is spelled.
pub open spec fn punct_text(t: Token) -> &'static str {
    match t {
        Token::PlusPlus => "++",
        Token::MinusMinus => "--",
        Token::ShiftRight => ">>",
        Token::ShiftLeft => "<<",
        Token::Plus => "+",
        Token::Minus => "-",
        Token::Star => "*",
        Token::Divide => "/",
        Token::Xor => "^",
        Token::Ampersand => "&",
        Token::LogicalAnd => "&&",
        Token::BitwiseOr => "|",
        Token::LogicalOr => "||",
        Token::BinaryNot => "~",
        Token::LogicalNot => "!",
        Token::LeftBrace => "{",
        Token::RightBrace => "}",
        Token::LeftBracket => "[",
        Token::RightBracket => "]",
        Token::LeftParen => "(",
        Token::RightParen => ")",
        Token::Semicolon => ";",
        Token::Colon => ":",
        Token::Comma => ",",
        Token::Dot => ".",
        Token::Question => "?",
        Token::Mod => "%",
        Token::Hash => "#",
        Token::Ellipsis => "...",
        Token::StructDeref => "->",
        _ => "",
    }
}

/// How an assignment operator is spelled: its binary operator followed by `=`.
/// (`=` itself has no binary operator.)
pub open spec fn assignment_text(a: AssignmentToken) -> Seq<char> {
    match a {
        AssignmentToken::Equal => Seq::empty(),
        _ => punct_text(operator_of(a))@ + "="@,
    }
}

impl AssignmentToken {
    /// The binary operator of a compound assignment (`+` for `+=`);
    /// `=` has none and maps to itself.
    pub fn without_assignment(self) -> (r: Token)
        ensures
            r == operator_of(self),
    {
        match self {
            AssignmentToken::Equal => Token::Assignment(AssignmentToken::Equal),
            AssignmentToken::PlusEqual => Token::Plus,
            AssignmentToken::MinusEqual => Token::Minus,
            AssignmentToken::StarEqual => Token::Star,
            AssignmentToken::DivideEqual => Token::Divide,
            AssignmentToken::ModEqual => Token::Mod,
            AssignmentToken::AndEqual => Token::Ampersand,
            AssignmentToken::OrEqual => Token::BitwiseOr,
            AssignmentToken::LeftEqual => Token::ShiftLeft,
            AssignmentToken::RightEqual => Token::ShiftRight,
            AssignmentToken::XorEqual => Token::Xor,
        }
    }

    /// How the operator is spelled: its binary operator followed by `=`.
    /// The spelling of `=` is defined through itself and never ends, so it is excluded.
    pub fn to_string(&self) -> (r: String)
        requires
            *self != AssignmentToken::Equal,
        ensures
            r@ == assignment_text(*self),
    {
        let mut s = String::from_str(self.operator_str());
        s.append("=");
        s
    }

    /// How the binary operator of a compound assignment is spelled.
    fn operator_str(&self) -> (r: &'static str)
        requires
            *self != AssignmentToken::Equal,
        ensures
            r == punct_text(operator_of(*self)),
    {
        match self {
            AssignmentToken::Equal => vstd::pervasive::unreached(),
            AssignmentToken::PlusEqual => "+",
            AssignmentToken::MinusEqual => "-",
            AssignmentToken::StarEqual => "*",
            AssignmentToken::DivideEqual => "/",
            AssignmentToken::ModEqual => "%",
            AssignmentToken::AndEqual => "&",
            AssignmentToken::OrEqual => "|",
            AssignmentToken::LeftEqual => "<<",
            AssignmentToken::RightEqual => ">>",
            AssignmentToken::XorEqual => "^",
        }
    }
}

/// The text of a literal token: the spelling of a number, a string between double
/// quotes, or the value of a character in decimal.
pub open spec fn literal_token_text(l: LiteralTokenView) -> Seq<char> {
    match l {
        LiteralTokenView::Int(b) => utf8_lossy(b),
        LiteralTokenView::UnsignedInt(b) => utf8_lossy(b),
        LiteralTokenView::Float(b) => utf8_lossy(b),
        LiteralTokenView::Str(b) => "\""@ + utf8_lossy(b) + "\""@,
        LiteralTokenView::Char(c) => decimal_text(c as nat),
    }
}

/// The text of a literal value: a number in decimal, the spelling of a float, a string
/// between double quotes, or the value of a character in decimal.
pub open spec fn literal_text(l: LiteralView) -> Seq<char> {
    match l {
        LiteralView::Int(i) => signed_decimal_text(i as int),
        LiteralView::UnsignedInt(u) => decimal_text(u as nat),
        LiteralView::Float(b) => utf8_lossy(b),
        LiteralView::Str(b) => "\""@ + utf8_lossy(b) + "\""@,
        LiteralView::Char(c) => decimal_text(c as nat),
    }
}

/// The text of a token, as it would be written in C.
pub open spec fn token_text(t: TokenView) -> Seq<char> {
    match t {
        TokenView::Plain(Token::Assignment(a)) => assignment_text(a),
        TokenView::Plain(Token::Comparison(c)) => comparison_text(c)@,
        TokenView::Plain(Token::Keyword(k)) => keyword_text(k)@,
        TokenView::Plain(tok) => punct_text(tok)@,
        TokenView::Literal(l) => literal_token_text(l),
        TokenView::Id(b) => utf8_lossy(b),
    }
}

fn quoted(b: &Vec<u8>) -> (r: String)
    ensures
        r@ == "\""@ + utf8_lossy(b@) + "\""@,
{
    let mut s = String::from_str("\"");
    let inner = string_from_bytes(b.as_slice());
    s.append(inner.as_str());
    s.append("\"");
    s
}

impl LiteralToken {
    /// The text of the literal.
    pub fn to_string(&self) -> (r: String)
        ensures
            r@ == literal_token_text(self@),
    {
        match self {
            LiteralToken::Int(b) => string_from_bytes(b.as_slice()),
            LiteralToken::UnsignedInt(b) => string_from_bytes(b.as_slice()),
            LiteralToken::Float(b) => string_from_bytes(b.as_slice()),
            LiteralToken::Str(b) => quoted(b),
            LiteralToken::Char(c) => decimal_string(*c as u64),
        }
    }
}

impl Literal {
    /// The text of the literal.
    pub fn to_string(&self) -> (r: String)
        ensures
            r@ == literal_text(self@),
    {
        match self {
            Literal::Int(i) => signed_decimal_string(*i),
            Literal::UnsignedInt(u) => decimal_string(*u),
            Literal::Float(b) => string_from_bytes(b.as_slice()),
            Literal::Str(b) => quoted(b),
            Literal::Char(c) => decimal_string(*c as u64),
        }
    }

    /// Whether the literal is an integer or character zero.
    pub fn is_zero(&self) -> (r: bool)
        ensures
            r == match self@ {
                LiteralView::Int(i) => i == 0,
                LiteralView::UnsignedInt(u) => u == 0,
                LiteralView::Char(c) => c == 0,
                _ => false,
            },
    {
        match self {
            Literal::Int(i) => *i == 0,
            Literal::UnsignedInt(u) => *u == 0,
            Literal::Char(c) => *c == 0,
            _ => false,
        }
    }
}

impl Token {
    /// The text of the token, as it would be written in C.
    /// The spelling of `=` is defined through itself and never ends, so it is excluded.
    pub fn to_string(&self) -> (r: String)
        requires
            !(self@ == TokenView::Plain(Token::Assignment(AssignmentToken::Equal))),
        ensures
            r@ == token_text(self@),
    {
        match self {
            Token::Assignment(a) => a.to_string(),
            Token::Comparison(c) => c.to_string(),
            Token::Keyword(k) => k.to_string(),
            Token::Literal(l) => l.to_string(),
            Token::Id(id) => string_from_bytes(id.as_slice()),
            Token::PlusPlus => String::from_str("++"),
            Token::MinusMinus => String::from_str("--"),
            Token::ShiftRight => String::from_str(">>"),
            Token::ShiftLeft => String::from_str("<<"),
            Token::Plus => String::from_str("+"),
            Token::Minus => String::from_str("-"),
            Token::Star => String::from_str("*"),
            Token::Divide => String::from_str("/"),
            Token::Xor => String::from_str("^"),
            Token::Ampersand => String::from_str("&"),
            Token::LogicalAnd => String::from_str("&&"),
            Token::BitwiseOr => String::from_str("|"),
            Token::LogicalOr => String::from_str("||"),
            Token::BinaryNot => String::from_str("~"),
            Token::LogicalNot => String::from_str("!"),
            Token::LeftBrace => String::from_str("{"),
            Token::RightBrace => String::from_str("}"),
            Token::LeftBracket => String::from_str("["),
            Token::RightBracket => String::from_str("]"),
            Token::LeftParen => String::from_str("("),
            Token::RightParen => String::from_str(")"),
            Token::Semicolon => String::from_str(";"),
            Token::Colon => String::from_str(":"),
            Token::Comma => String::from_str(","),
            Token::Dot => String::from_str("."),
            Token::Question => String::from_str("?"),
            Token::Mod => String::from_str("%"),
            Token::Hash => String::from_str("#"),
            Token::Ellipsis => String::from_str("..."),
            Token::StructDeref => String::from_str("->"),
        }
    }
}

impl From<LiteralToken> for Token {
    fn from(l: LiteralToken) -> (r: Self) {
        Token::Literal(l)
    }
}

impl vstd::std_specs::convert::FromSpecImpl<LiteralToken> for Token {
    open spec fn obeys_from_spec() -> bool {
        true
    }

    open spec fn from_spec(v: LiteralToken) -> Self {
        Token::Literal(v)
    }
}

impl From<AssignmentToken> for Token {
    fn from(a: AssignmentToken) -> (r: Self) {
        Token::Assignment(a)
    }
}

impl vstd::std_specs::convert::FromSpecImpl<AssignmentToken> for Token {
    open spec fn obeys_from_spec() -> bool {
        true
    }

    open spec fn from_spec(v: AssignmentToken) -> Self {
        Token::Assignment(v)
    }
}

impl From<ComparisonToken> for Token {
    fn from(c: ComparisonToken) -> (r: Self) {
        Token::Comparison(c)
    }
}

impl vstd::std_specs::convert::FromSpecImpl<ComparisonToken> for Token {
    open spec fn obeys_from_spec() -> bool {
        true
    }

    open spec fn from_spec(v: ComparisonToken) -> Self {
        Token::Comparison(v)
    }
}

/// The base of an integer spelling and where its digits start:
/// `0b` binary, `0x` hexadecimal, another leading `0` octal, otherwise decimal.
pub open spec fn spelling_radix(sp: Seq<u8>) -> (int, int) {
    if sp.len() >= 2 && sp[0] == 0x30u8 && sp[1] == 0x62u8 {
        (2, 2)
    } else if sp.len() >= 2 && sp[0] == 0x30u8 && sp[1] == 0x78u8 {
        (16, 2)
    } else if sp.len() >= 1 && sp[0] == 0x30u8 {
        (8, 1)
    } else {
        (10, 0)
    }
}

/// The number an integer spelling stands for.
pub open spec fn spelling_value(sp: Seq<u8>) -> int {
    let (radix, start) = spelling_radix(sp);
    crate::lex::grammar::digits_value(sp.skip(start), radix)
}

/// The value of a literal token, or the error it has no value for.
pub open spec fn literal_value(t: LiteralTokenView) -> Result<LiteralView, LexError> {
    match t {
        LiteralTokenView::Int(sp) => if spelling_value(sp) > u64::MAX {
            Err(LexError::IntegerOverflow { is_signed: None })
        } else if spelling_value(sp) > i64::MAX {
            Err(LexError::IntegerOverflow { is_signed: Some(true) })
        } else {
            Ok(LiteralView::Int(spelling_value(sp) as i64))
        },
        LiteralTokenView::UnsignedInt(sp) => if spelling_value(sp) > u64::MAX {
            Err(LexError::IntegerOverflow { is_signed: None })
        } else {
            Ok(LiteralView::UnsignedInt(spelling_value(sp) as u64))
        },
        LiteralTokenView::Float(b) => Ok(LiteralView::Float(b)),
        LiteralTokenView::Str(b) => Ok(LiteralView::Str(b)),
        LiteralTokenView::Char(c) => Ok(LiteralView::Char(c)),
    }
}

/// The mathematical content of a `Literal`.
pub enum LiteralView {
    Int(i64),
    UnsignedInt(u64),
    Float(Seq<u8>),
    Str(Seq<u8>),
    Char(u8),
}

impl View for Literal {
    type V = LiteralView;

    open spec fn view(&self) -> LiteralView {
        match self {
            Literal::Int(i) => LiteralView::Int(*i),
            Literal::UnsignedInt(u) => LiteralView::UnsignedInt(*u),
            Literal::Float(v) => LiteralView::Float(v@),
            Literal::Str(v) => LiteralView::Str(v@),
            Literal::Char(c) => LiteralView::Char(*c),
        }
    }
}

fn copy_bytes(v: &Vec<u8>) -> (r: Vec<u8>)
    ensures
        r@ == v@,
{
    let mut r: Vec<u8> = Vec::new();
    let mut i: usize = 0;
    while i < v.len()
        invariant
            i <= v.len(),
            r@ == v@.subrange(0, i as int),
        decreases v.len() - i,
    {
        r.push(v[i]);
        i = i + 1;
        proof {
            assert(r@ =~= v@.subrange(0, i as int));
        }
    }
    proof {
        assert(r@ =~= v@);
    }
    r
}

/// The number that an integer spelling stands for, or `None` when it exceeds `u64::MAX`.
fn spelling_number(sp: &Vec<u8>) -> (r: Option<u64>)
    ensures
        match r {
            Some(v) => v == spelling_value(sp@),
            None => spelling_value(sp@) > u64::MAX,
        },
{
    let ghost s = sp@;
    let (radix, start): (u64, usize) = if sp.len() >= 2 && sp[0] == 0x30u8 && sp[1] == 0x62u8 {
        (2, 2)
    } else if sp.len() >= 2 && sp[0] == 0x30u8 && sp[1] == 0x78u8 {
        (16, 2)
    } else if sp.len() >= 1 && sp[0] == 0x30u8 {
        (8, 1)
    } else {
        (10, 0)
    };
    let ghost digits = s.skip(start as int);
    let mut acc: u64 = 0;
    let mut overflow = false;
    let mut i = start;
    proof {
        assert(s.subrange(start as int, start as int) =~= Seq::<u8>::empty());
    }
    while i < sp.len()
        invariant
            start <= i <= sp.len(),
            sp@ == s,
            radix == spelling_radix(s).0,
            start == spelling_radix(s).1,
            2 <= radix <= 16,
            overflow == (crate::lex::grammar::digits_value(s.subrange(start as int, i as int), radix as int) > u64::MAX),
            !overflow ==> acc == crate::lex::grammar::digits_value(s.subrange(start as int, i as int), radix as int),
        decreases sp.len() - i,
    {
        let d: u64 = match crate::lex::hex_digit(sp[i]) {
            Some(d) => d as u64,
            None => 0,
        };
        proof {
            assert(s.subrange(start as int, i + 1) =~= s.subrange(start as int, i as int).push(s[i as int]));
            crate::lex::lemma_digits_value_push(s.subrange(start as int, i as int), s[i as int], radix as int);
            crate::lex::lemma_digits_value_nonneg(s.subrange(start as int, i as int), radix as int);
        }
        if !overflow {
            match acc.checked_mul(radix) {
                Some(m) => match m.checked_add(d) {
                    Some(a) => {
                        acc = a;
                    },
                    None => {
                        overflow = true;
                    },
                },
                None => {
                    overflow = true;
                },
            }
        } else {
            proof {
                let v = crate::lex::grammar::digits_value(s.subrange(start as int, i as int), radix as int);
                assert(v * radix >= v) by (nonlinear_arith)
                    requires
                        v >= 0,
                        radix >= 2,
                ;
            }
        }
        i = i + 1;
    }
    proof {
        assert(s.subrange(start as int, sp.len() as int) =~= digits);
    }
    if overflow {
        None
    } else {
        Some(acc)
    }
}

impl LiteralToken {
    /// The value of the literal.
    ///
    /// An integer literal whose value does not fit in 64 bits, or a signed one whose value
    /// does not fit in `i64`, is an overflow error.
    pub fn parse(&self) -> (r: Result<Literal, LexError>)
        ensures
            match (r, literal_value(self@)) {
                (Ok(l), Ok(v)) => l@ == v,
                (Err(a), Err(b)) => a == b,
                _ => false,
            },
    {
        match self {
            LiteralToken::Int(sp) => match spelling_number(sp) {
                None => Err(LexError::IntegerOverflow { is_signed: None }),
                Some(v) => if v > 0x7fff_ffff_ffff_ffffu64 {
                    Err(LexError::IntegerOverflow { is_signed: Some(true) })
                } else {
                    Ok(Literal::Int(v as i64))
                },
            },
            LiteralToken::UnsignedInt(sp) => match spelling_number(sp) {
                None => Err(LexError::IntegerOverflow { is_signed: None }),
                Some(v) => Ok(Literal::UnsignedInt(v)),
            },
            LiteralToken::Float(b) => Ok(Literal::Float(copy_bytes(b))),
            LiteralToken::Str(b) => Ok(Literal::Str(copy_bytes(b))),
            LiteralToken::Char(c) => Ok(Literal::Char(*c)),
        }
    }
}

/// The order of locations turned around: what `b` is to `a` when `a` is `o` to `b`.
pub open spec fn reversed(o: Option<Ordering>) -> Option<Ordering> {
    match o {
        Some(Ordering::Less) => Some(Ordering::Greater),
        Some(Ordering::Greater) => Some(Ordering::Less),
        other => other,
    }
}

/// Swapping two locations turns their order around; locations in different files are
/// not ordered; a location is equal in order only to itself.
pub proof fn lemma_location_order_laws(a: Location, b: Location)
    ensures
        location_order(b, a) == reversed(location_order(a, b)),
        (location_order(a, b) is None) <==> a.file != b.file,
        (location_order(a, b) == Some(Ordering::Equal)) <==> a == b,
{
}

/// Location order is transitive: what comes before something that comes before a third
/// location comes before it too.
pub proof fn lemma_location_order_transitive(a: Location, b: Location, c: Location)
    requires
        location_order(a, b) == Some(Ordering::Less),
        location_order(b, c) == Some(Ordering::Less),
    ensures
        location_order(a, c) == Some(Ordering::Less),
{
}


/// Located values compare by their data alone, wherever they stand: their equality obeys
/// its specification exactly when that of the data does.
pub proof fn lemma_located_eq_ignores_location<T: PartialEq>(a: Locatable<T>, b: Locatable<T>)
    ensures
        PartialEqSpec::eq_spec(&a, &b) == PartialEqSpec::eq_spec(&a.data, &b.data),
        <Locatable<T> as PartialEqSpec>::obeys_eq_spec() == <T as PartialEqSpec>::obeys_eq_spec(),
{
}

} // verus!
