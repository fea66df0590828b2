//! The messages of errors and warnings, as the compiler prints them.
use vstd::prelude::*;
use vstd::string::StringExecFns;

use super::error::{CppError, Error, LexError, Radix, SemanticError, SyntaxError, Warning};
use super::lex::{keyword_text, token_text, AssignmentToken, Token, TokenView};
use crate::text::{decimal_string, decimal_text, string_from_char};

verus! {

/// How a radix is named in messages.
pub open spec fn radix_text(r: Radix) -> &'static str {
    match r {
        Radix::Binary => "binary",
        Radix::Octal => "octal",
        Radix::Decimal => "decimal",
        Radix::Hexadecimal => "hexadecimal",
    }
}

impl Radix {
    /// How the radix is named in messages.
    pub fn as_str(&self) -> (r: &'static str)
        ensures
            r == radix_text(*self),
    {
        match self {
            Radix::Binary => "binary",
            Radix::Octal => "octal",
            Radix::Decimal => "decimal",
            Radix::Hexadecimal => "hexadecimal",
        }
    }
}

/// The word before `integer literal` in an overflow message.
pub open spec fn signedness_text(is_signed: Option<bool>) -> &'static str {
    match is_signed {
        Some(true) => "signed ",
        Some(false) => "unsigned ",
        None => "",
    }
}

fn signedness_str(is_signed: Option<bool>) -> (r: &'static str)
    ensures
        r == signedness_text(is_signed),
{
    match is_signed {
        Some(true) => "signed ",
        Some(false) => "unsigned ",
        None => "",
    }
}

/// The word `long` written `n` times, separated by spaces.
pub open spec fn long_words(n: nat) -> Seq<char>
    decreases n,
{
    if n == 0 {
        Seq::empty()
    } else if n == 1 {
        "long"@
    } else {
        long_words((n - 1) as nat) + " long"@
    }
}

fn long_words_string(n: usize) -> (r: String)
    ensures
        r@ == long_words(n as nat),
{
    let mut s = String::new();
    let mut i: usize = 0;
    while i < n
        invariant
            i <= n,
            s@ == long_words(i as nat),
        decreases n - i,
    {
        if i == 0 {
            s.append("long");
            proof {
                assert(s@ =~= "long"@);
            }
        } else {
            s.append(" long");
        }
        i = i + 1;
    }
    s
}

/// Whether the text of a token can be written: every token but `=`, whose spelling is
/// defined through itself.
pub open spec fn token_printable(t: Token) -> bool {
    t@ != TokenView::Plain(Token::Assignment(AssignmentToken::Equal))
}

pub open spec fn tokens_printable(ts: Seq<Token>) -> bool {
    forall|i: int| 0 <= i < ts.len() ==> token_printable(#[trigger] ts[i])
}

/// The texts of the tokens, separated by spaces.
pub open spec fn tokens_text(ts: Seq<Token>) -> Seq<char>
    decreases ts.len(),
{
    if ts.len() == 0 {
        Seq::empty()
    } else if ts.len() == 1 {
        token_text(ts[0]@)
    } else {
        tokens_text(ts.drop_last()) + " "@ + token_text(ts.last()@)
    }
}

fn tokens_to_string(ts: &Vec<Token>) -> (r: String)
    requires
        tokens_printable(ts@),
    ensures
        r@ == tokens_text(ts@),
{
    let mut s = String::new();
    let mut i: usize = 0;
    while i < ts.len()
        invariant
            i <= ts.len(),
            tokens_printable(ts@),
            s@ == tokens_text(ts@.take(i as int)),
        decreases ts.len() - i,
    {
        let t = ts[i].to_string();
        proof {
            assert(ts@.take(i + 1).drop_last() =~= ts@.take(i as int));
        }
        if i == 0 {
            s.append(t.as_str());
            proof {
                assert(s@ =~= t@);
            }
        } else {
            s.append(" ");
            s.append(t.as_str());
        }
        i = i + 1;
    }
    proof {
        assert(ts@.take(ts.len() as int) =~= ts@);
    }
    s
}

/// The text of a token that may be missing, where the input ended.
pub open spec fn opt_token_text(t: Option<Token>) -> Seq<char> {
    match t {
        Some(tok) => token_text(tok@),
        None => "<end-of-file>"@,
    }
}

fn opt_token_to_string(t: &Option<Token>) -> (r: String)
    requires
        match t {
            Some(tok) => token_printable(*tok),
            None => true,
        },
    ensures
        r@ == opt_token_text(*t),
{
    match t {
        Some(tok) => tok.to_string(),
        None => String::from_str("<end-of-file>"),
    }
}

/// Whether the message of a syntax error can be written (see `token_printable`).
pub open spec fn syntax_printable(e: SyntaxError) -> bool {
    match e {
        SyntaxError::ExpectedId(Some(t)) => token_printable(t),
        SyntaxError::ExpectedDeclaratorStart(t) => token_printable(t),
        _ => true,
    }
}

/// Whether the message of a preprocessing error can be written (see `token_printable`).
pub open spec fn cpp_printable(e: CppError) -> bool {
    match e {
        CppError::User(ts) => tokens_printable(ts@),
        CppError::UnexpectedToken(_, t) => token_printable(t),
        _ => true,
    }
}

/// Whether the message of a warning can be written (see `token_printable`).
pub open spec fn warning_printable(w: Warning) -> bool {
    match w {
        Warning::User(ts) => tokens_printable(ts@),
        _ => true,
    }
}

/// Whether the message of an error can be written (see `token_printable`).
pub open spec fn error_printable(e: Error) -> bool {
    match e {
        Error::Syntax(s) => syntax_printable(s),
        Error::PreProcessor(c) => cpp_printable(c),
        _ => true,
    }
}

/// The message of an error: its kind, then the message of the error itself.
pub open spec fn error_text(e: Error) -> Seq<char> {
    match e {
        Error::Semantic(s) => "invalid program: "@ + semantic_text(s),
        Error::Syntax(s) => "invalid syntax: "@ + syntax_text(s),
        Error::PreProcessor(c) => "invalid macro: "@ + cpp_text(c),
        Error::Lex(l) => "invalid token: "@ + lex_text(l),
    }
}

impl Error {
    /// The message of the error, as the compiler prints it.
    pub fn to_string(&self) -> (r: String)
        requires
            error_printable(*self),
        ensures
            r@ == error_text(*self),
    {
        let (mut s, inner) = match self {
            Error::Semantic(e) => (String::from_str("invalid program: "), e.to_string()),
            Error::Syntax(e) => (String::from_str("invalid syntax: "), e.to_string()),
            Error::PreProcessor(e) => (String::from_str("invalid macro: "), e.to_string()),
            Error::Lex(e) => (String::from_str("invalid token: "), e.to_string()),
        };
        s.append(inner.as_str());
        s
    }
}

/// The message of a SemanticError.
pub open spec fn semantic_text(e: SemanticError) -> Seq<char> {
    match e {
        SemanticError::Generic(x) => x@,
        SemanticError::TooLong(n) => "'"@ + long_words(n as nat) + "' is too long for rcc"@,
        SemanticError::ConflictingSigned => "types cannot be both signed and unsigned"@,
        SemanticError::AutoAtGlobalScope => "only function-scoped variables can have an `auto` storage class"@,
        SemanticError::EmptyProgram => "cannot have empty program"@,
        SemanticError::NonIntegralLength => "expected an integer"@,
        SemanticError::NegativeLength => "arrays must have a positive length"@,
        SemanticError::DuplicateParameter(x) => "duplicate parameter name '"@ + x@ + "' in function declaration"@,
        SemanticError::InvalidVoidParameter => "void must be the first and only parameter if specified"@,
        SemanticError::EnumOverflow => "overflow in enumeration constant"@,
        SemanticError::VoidType => "variable has incomplete type 'void'"@,
        SemanticError::UndeclaredVar(x) => "use of undeclared identifier '"@ + x@ + "'"@,
        SemanticError::TypedefInExpressionContext => "expected expression, got typedef"@,
        SemanticError::IdInTypeName(_x) => "type casts cannot have a variable name"@,
        SemanticError::NotAssignable(x) => "cannot assign to "@ + x@,
        SemanticError::WrongArgumentNumber(a, b) => "too "@ + (if b > a { "many"@ } else { "few"@ }) + " arguments to function call: expected "@ + decimal_text(a as nat) + ", have "@ + decimal_text(b as nat),
        SemanticError::InvalidAddressOf(x) => "cannot take address of "@ + x@,
        SemanticError::ConstOverflow { is_positive } => (if is_positive { "positive"@ } else { "negative"@ }) + " overflow in expresson"@,
        SemanticError::DivideByZero => "cannot divide by zero"@,
        SemanticError::NegativeShift { is_left } => "cannot shift "@ + (if is_left { "left"@ } else { "right"@ }) + " by a negative amount"@,
        SemanticError::NullPointerDereference => "cannot dereference NULL pointer"@,
        SemanticError::VoidCast => "cannot cast void to any type"@,
        SemanticError::StructCast => "cannot cast structs to any type"@,
        SemanticError::UnreachableStatement => "unreachable statement"@,
        SemanticError::UndeclaredLabel(x) => "use of undeclared label "@ + x@,
        SemanticError::CaseOutsideSwitch { is_default } => (if is_default { "default "@ } else { ""@ }) + "case outside of switch statement"@,
        SemanticError::DuplicateCase { is_default } => "cannot have multiple "@ + (if is_default { "default "@ } else { ""@ }) + "cases in a switch statement"@,
        SemanticError::EmptyInitializer => "initializers cannot be empty"@,
        SemanticError::TooManyMembers(a, b) => "too many initializers (declared with "@ + decimal_text(a as nat) + " elements, found "@ + decimal_text(b as nat) + ")"@,
        SemanticError::ForwardDeclarationIncomplete(a, b) => "forward declaration of "@ + a@ + " is never completed (used in "@ + b@ + ")"@,
        SemanticError::IllegalMainSignature => "illegal signature for main function (expected 'int main(void)' or 'int main(int, char **)'"@,
        SemanticError::Redefinition(x) => "redefinition of '"@ + x@ + "'"@,
        SemanticError::MissingReturnValue(x) => "function '"@ + x@ + "' does not return a value"@,
        SemanticError::ReturnFromVoid(x) => "void function '"@ + x@ + "' should not return a value"@,
    }
}

impl SemanticError {
    /// The message of the error, as the compiler prints it.
    pub fn to_string(&self) -> (r: String)
        ensures
            r@ == semantic_text(*self),
    {
        match self {
            SemanticError::Generic(x) => String::from_str(x.as_str()),
            SemanticError::TooLong(n) => {
                let mut s = String::from_str("'");
                { let t = long_words_string(*n); s.append(t.as_str()); }
                s.append("' is too long for rcc");
                s
            },
            SemanticError::ConflictingSigned => String::from_str("types cannot be both signed and unsigned"),
            SemanticError::AutoAtGlobalScope => String::from_str("only function-scoped variables can have an `auto` storage class"),
            SemanticError::EmptyProgram => String::from_str("cannot have empty program"),
            SemanticError::NonIntegralLength => String::from_str("expected an integer"),
            SemanticError::NegativeLength => String::from_str("arrays must have a positive length"),
            SemanticError::DuplicateParameter(x) => {
                let mut s = String::from_str("duplicate parameter name '");
                s.append(x.as_str());
                s.append("' in function declaration");
                s
            },
            SemanticError::InvalidVoidParameter => String::from_str("void must be the first and only parameter if specified"),
            SemanticError::EnumOverflow => String::from_str("overflow in enumeration constant"),
            SemanticError::VoidType => String::from_str("variable has incomplete type 'void'"),
            SemanticError::UndeclaredVar(x) => {
                let mut s = String::from_str("use of undeclared identifier '");
                s.append(x.as_str());
                s.append("'");
                s
            },
            SemanticError::TypedefInExpressionContext => String::from_str("expected expression, got typedef"),
            SemanticError::IdInTypeName(_x) => String::from_str("type casts cannot have a variable name"),
            SemanticError::NotAssignable(x) => {
                let mut s = String::from_str("cannot assign to ");
                s.append(x.as_str());
                s
            },
            SemanticError::WrongArgumentNumber(a, b) => {
                let mut s = String::from_str("too ");
                s.append(if *b > *a { "many" } else { "few" });
                s.append(" arguments to function call: expected ");
                { let t = decimal_string(*a as u64); s.append(t.as_str()); }
                s.append(", have ");
                { let t = decimal_string(*b as u64); s.append(t.as_str()); }
                s
            },
            SemanticError::InvalidAddressOf(x) => {
                let mut s = String::from_str("cannot take address of ");
                s.append(*x);
                s
            },
            SemanticError::ConstOverflow { is_positive } => {
                let mut s = String::from_str(if *is_positive { "positive" } else { "negative" });
                s.append(" overflow in expresson");
                s
            },
            SemanticError::DivideByZero => String::from_str("cannot divide by zero"),
            SemanticError::NegativeShift { is_left } => {
                let mut s = String::from_str("cannot shift ");
                s.append(if *is_left { "left" } else { "right" });
                s.append(" by a negative amount");
                s
            },
            SemanticError::NullPointerDereference => String::from_str("cannot dereference NULL pointer"),
            SemanticError::VoidCast => String::from_str("cannot cast void to any type"),
            SemanticError::StructCast => String::from_str("cannot cast structs to any type"),
            SemanticError::UnreachableStatement => String::from_str("unreachable statement"),
            SemanticError::UndeclaredLabel(x) => {
                let mut s = String::from_str("use of undeclared label ");
                s.append(x.as_str());
                s
            },
            SemanticError::CaseOutsideSwitch { is_default } => {
                let mut s = String::from_str(if *is_default { "default " } else { "" });
                s.append("case outside of switch statement");
                s
            },
            SemanticError::DuplicateCase { is_default } => {
                let mut s = String::from_str("cannot have multiple ");
                s.append(if *is_default { "default " } else { "" });
                s.append("cases in a switch statement");
                s
            },
            SemanticError::EmptyInitializer => String::from_str("initializers cannot be empty"),
            SemanticError::TooManyMembers(a, b) => {
                let mut s = String::from_str("too many initializers (declared with ");
                { let t = decimal_string(*a as u64); s.append(t.as_str()); }
                s.append(" elements, found ");
                { let t = decimal_string(*b as u64); s.append(t.as_str()); }
                s.append(")");
                s
            },
            SemanticError::ForwardDeclarationIncomplete(a, b) => {
                let mut s = String::from_str("forward declaration of ");
                s.append(a.as_str());
                s.append(" is never completed (used in ");
                s.append(b.as_str());
                s.append(")");
                s
            },
            SemanticError::IllegalMainSignature => String::from_str("illegal signature for main function (expected 'int main(void)' or 'int main(int, char **)'"),
            SemanticError::Redefinition(x) => {
                let mut s = String::from_str("redefinition of '");
                s.append(x.as_str());
                s.append("'");
                s
            },
            SemanticError::MissingReturnValue(x) => {
                let mut s = String::from_str("function '");
                s.append(x.as_str());
                s.append("' does not return a value");
                s
            },
            SemanticError::ReturnFromVoid(x) => {
                let mut s = String::from_str("void function '");
                s.append(x.as_str());
                s.append("' should not return a value");
                s
            },
        }
    }
}

/// The message of a SyntaxError.
pub open spec fn syntax_text(e: SyntaxError) -> Seq<char> {
    match e {
        SyntaxError::Generic(x) => x@,
        SyntaxError::EndOfFile(x) => "expected "@ + x@ + ", got <end-of-file>"@,
        SyntaxError::NotAStatement(k) => "expected statement, got "@ + keyword_text(k)@,
        SyntaxError::MissingPrimary => "expected variable, literal, or '('"@,
        SyntaxError::ExpectedId(t) => "expected identifier, got '"@ + opt_token_text(t) + "'"@,
        SyntaxError::ExpectedDeclSpecifier(k) => "expected declaration specifier, got keyword '"@ + keyword_text(k)@ + "'"@,
        SyntaxError::ExpectedDeclarator => "expected declarator in declaration"@,
        SyntaxError::ExpectedType => "empty type name"@,
        SyntaxError::ExpectedDeclaratorStart(t) => "expected '(', '*', or variable, got '"@ + token_text(t@) + "'"@,
        SyntaxError::MissingFunctionName => "function definitions must have a name"@,
        SyntaxError::StaticInConcreteArray => "`static` for array sizes is only allowed in function declarations"@,
    }
}

impl SyntaxError {
    /// The message of the error, as the compiler prints it.
    pub fn to_string(&self) -> (r: String)
        requires
            syntax_printable(*self),
        ensures
            r@ == syntax_text(*self),
    {
        match self {
            SyntaxError::Generic(x) => String::from_str(x.as_str()),
            SyntaxError::EndOfFile(x) => {
                let mut s = String::from_str("expected ");
                s.append(*x);
                s.append(", got <end-of-file>");
                s
            },
            SyntaxError::NotAStatement(k) => {
                let mut s = String::from_str("expected statement, got ");
                s.append(k.as_str());
                s
            },
            SyntaxError::MissingPrimary => String::from_str("expected variable, literal, or '('"),
            SyntaxError::ExpectedId(t) => {
                let mut s = String::from_str("expected identifier, got '");
                { let t = opt_token_to_string(t); s.append(t.as_str()); }
                s.append("'");
                s
            },
            SyntaxError::ExpectedDeclSpecifier(k) => {
                let mut s = String::from_str("expected declaration specifier, got keyword '");
                s.append(k.as_str());
                s.append("'");
                s
            },
            SyntaxError::ExpectedDeclarator => String::from_str("expected declarator in declaration"),
            SyntaxError::ExpectedType => String::from_str("empty type name"),
            SyntaxError::ExpectedDeclaratorStart(t) => {
                let mut s = String::from_str("expected '(', '*', or variable, got '");
                { let t = t.to_string(); s.append(t.as_str()); }
                s.append("'");
                s
            },
            SyntaxError::MissingFunctionName => String::from_str("function definitions must have a name"),
            SyntaxError::StaticInConcreteArray => String::from_str("`static` for array sizes is only allowed in function declarations"),
        }
    }
}

/// The message of a CppError.
pub open spec fn cpp_text(e: CppError) -> Seq<char> {
    match e {
        CppError::User(v) => "#error "@ + tokens_text(v@),
        CppError::InvalidDirective => "invalid preprocessing directive"@,
        CppError::UnexpectedToken(x, t) => "expected "@ + x@ + ", got "@ + token_text(t@),
        CppError::EndOfFile(x) => "expected "@ + x@ + ", got <end-of-file>"@,
        CppError::FileNotFound(x) => "file '"@ + x@ + "' not found"@,
        CppError::TooFewArguments(a, b) => "wrong number of arguments: expected "@ + decimal_text(a as nat) + ", got "@ + decimal_text(b as nat),
        CppError::IO(x) => "IO error: "@ + x@,
        CppError::UnterminatedIf => "#if is never terminated"@,
        CppError::EmptyExpression => "expected expression for #if"@,
        CppError::EmptyDefine => "macro name missing"@,
        CppError::EmptyInclude => "empty filename"@,
        CppError::UnexpectedEndIf => "#endif without #if"@,
        CppError::UnexpectedElse => "#else after #else or #else without #if"@,
        CppError::UnexpectedElif { early } => (if early { "#elif without #if"@ } else { "#elif after #else "@ }),
    }
}

impl CppError {
    /// The message of the error, as the compiler prints it.
    pub fn to_string(&self) -> (r: String)
        requires
            cpp_printable(*self),
        ensures
            r@ == cpp_text(*self),
    {
        match self {
            CppError::User(v) => {
                let mut s = String::from_str("#error ");
                { let t = tokens_to_string(v); s.append(t.as_str()); }
                s
            },
            CppError::InvalidDirective => String::from_str("invalid preprocessing directive"),
            CppError::UnexpectedToken(x, t) => {
                let mut s = String::from_str("expected ");
                s.append(*x);
                s.append(", got ");
                { let t = t.to_string(); s.append(t.as_str()); }
                s
            },
            CppError::EndOfFile(x) => {
                let mut s = String::from_str("expected ");
                s.append(*x);
                s.append(", got <end-of-file>");
                s
            },
            CppError::FileNotFound(x) => {
                let mut s = String::from_str("file '");
                s.append(x.as_str());
                s.append("' not found");
                s
            },
            CppError::TooFewArguments(a, b) => {
                let mut s = String::from_str("wrong number of arguments: expected ");
                { let t = decimal_string(*a as u64); s.append(t.as_str()); }
                s.append(", got ");
                { let t = decimal_string(*b as u64); s.append(t.as_str()); }
                s
            },
            CppError::IO(x) => {
                let mut s = String::from_str("IO error: ");
                s.append(x.as_str());
                s
            },
            CppError::UnterminatedIf => String::from_str("#if is never terminated"),
            CppError::EmptyExpression => String::from_str("expected expression for #if"),
            CppError::EmptyDefine => String::from_str("macro name missing"),
            CppError::EmptyInclude => String::from_str("empty filename"),
            CppError::UnexpectedEndIf => String::from_str("#endif without #if"),
            CppError::UnexpectedElse => String::from_str("#else after #else or #else without #if"),
            CppError::UnexpectedElif { early } => String::from_str(if *early { "#elif without #if" } else { "#elif after #else " }),
        }
    }
}

/// The message of a LexError.
pub open spec fn lex_text(e: LexError) -> Seq<char> {
    match e {
        LexError::UnterminatedComment => "unterminated /* comment"@,
        LexError::NoNewlineAtEOF => "no newline at end of file"@,
        LexError::UnknownToken(c) => "unknown token: '"@ + seq![c] + "'"@,
        LexError::MissingEndQuote { string } => "missing terminating "@ + (if string { "\""@ } else { "'"@ }) + " character in "@ + (if string { "string"@ } else { "character"@ }) + " literal"@,
        LexError::NewlineInString => "illegal newline while parsing string literal"@,
        LexError::CharEscapeOutOfRange(r) => radix_text(r)@ + " character escape out of range"@,
        LexError::IntegerOverflow { is_signed } => "overflow while parsing "@ + signedness_text(is_signed)@ + "integer literal"@,
        LexError::ExponentMissingDigits => "exponent for floating literal has no digits"@,
        LexError::MissingDigits(r) => "missing digits to "@ + radix_text(r)@ + " integer constant"@,
        LexError::InvalidDigit { digit, radix } => "invalid digit "@ + decimal_text(digit as nat) + " in "@ + radix_text(radix)@ + " constant"@,
        LexError::MultiCharCharLiteral => "multi-character character literal"@,
        LexError::MultiByteCharLiteral => "multi-byte unicode character literal"@,
        LexError::NewlineInChar => "illegal newline while parsing char literal"@,
        LexError::EmptyChar => "empty character constant"@,
        LexError::FloatUnderflow => "underflow parsing floating literal"@,
    }
}

impl LexError {
    /// The message of the error, as the compiler prints it.
    pub fn to_string(&self) -> (r: String)
        ensures
            r@ == lex_text(*self),
    {
        match self {
            LexError::UnterminatedComment => String::from_str("unterminated /* comment"),
            LexError::NoNewlineAtEOF => String::from_str("no newline at end of file"),
            LexError::UnknownToken(c) => {
                let mut s = String::from_str("unknown token: '");
                { let t = string_from_char(*c); s.append(t.as_str()); }
                s.append("'");
                s
            },
            LexError::MissingEndQuote { string } => {
                let mut s = String::from_str("missing terminating ");
                s.append(if *string { "\"" } else { "'" });
                s.append(" character in ");
                s.append(if *string { "string" } else { "character" });
                s.append(" literal");
                s
            },
            LexError::NewlineInString => String::from_str("illegal newline while parsing string literal"),
            LexError::CharEscapeOutOfRange(r) => {
                let mut s = String::from_str(r.as_str());
                s.append(" character escape out of range");
                s
            },
            LexError::IntegerOverflow { is_signed } => {
                let mut s = String::from_str("overflow while parsing ");
                s.append(signedness_str(*is_signed));
                s.append("integer literal");
                s
            },
            LexError::ExponentMissingDigits => String::from_str("exponent for floating literal has no digits"),
            LexError::MissingDigits(r) => {
                let mut s = String::from_str("missing digits to ");
                s.append(r.as_str());
                s.append(" integer constant");
                s
            },
            LexError::InvalidDigit { digit, radix } => {
                let mut s = String::from_str("invalid digit ");
                { let t = decimal_string(*digit as u64); s.append(t.as_str()); }
                s.append(" in ");
                s.append(radix.as_str());
                s.append(" constant");
                s
            },
            LexError::MultiCharCharLiteral => String::from_str("multi-character character literal"),
            LexError::MultiByteCharLiteral => String::from_str("multi-byte unicode character literal"),
            LexError::NewlineInChar => String::from_str("illegal newline while parsing char literal"),
            LexError::EmptyChar => String::from_str("empty character constant"),
            LexError::FloatUnderflow => String::from_str("underflow parsing floating literal"),
        }
    }
}

/// The message of a Warning.
pub open spec fn warning_text(e: Warning) -> Seq<char> {
    match e {
        Warning::Generic(x) => x@,
        Warning::User(v) => "#warning "@ + tokens_text(v@),
        Warning::ExtraneousSemicolon(x) => "extraneous semicolon in "@ + x@,
        Warning::EmptyDeclaration => "declaration does not declare anything"@,
        Warning::IgnoredPragma => "rcc does not support #pragma"@,
        Warning::IgnoredVariadic => "variadic macros are not yet supported"@,
        Warning::ImplicitInt => "implicit int is deprecated and may be removed in a future release"@,
        Warning::ExtraneousExtern => "this is a definition, not a declaration, the 'extern' keyword has no effect"@,
        Warning::UnknownCharEscape(c) => "unknown character escape '\\"@ + decimal_text(c as nat) + "'"@,
        Warning::BinaryLiteral => "binary number literals are an extension"@,
    }
}

impl Warning {
    /// The message of the error, as the compiler prints it.
    pub fn to_string(&self) -> (r: String)
        requires
            warning_printable(*self),
        ensures
            r@ == warning_text(*self),
    {
        match self {
            Warning::Generic(x) => String::from_str(x.as_str()),
            Warning::User(v) => {
                let mut s = String::from_str("#warning ");
                { let t = tokens_to_string(v); s.append(t.as_str()); }
                s
            },
            Warning::ExtraneousSemicolon(x) => {
                let mut s = String::from_str("extraneous semicolon in ");
                s.append(*x);
                s
            },
            Warning::EmptyDeclaration => String::from_str("declaration does not declare anything"),
            Warning::IgnoredPragma => String::from_str("rcc does not support #pragma"),
            Warning::IgnoredVariadic => String::from_str("variadic macros are not yet supported"),
            Warning::ImplicitInt => String::from_str("implicit int is deprecated and may be removed in a future release"),
            Warning::ExtraneousExtern => String::from_str("this is a definition, not a declaration, the 'extern' keyword has no effect"),
            Warning::UnknownCharEscape(c) => {
                let mut s = String::from_str("unknown character escape '\\");
                { let t = decimal_string(*c as u64); s.append(t.as_str()); }
                s.append("'");
                s
            },
            Warning::BinaryLiteral => String::from_str("binary number literals are an extension"),
        }
    }
}

} // verus!
