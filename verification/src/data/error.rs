use std::collections::VecDeque;
use vstd::prelude::*;
use vstd::std_specs::convert::FromSpec;
use vstd::std_specs::convert::FromSpecImpl;

use super::lex::{Locatable, Location, Token};

verus! {

/// The base in which an integer constant or an escape is written.
#[derive(Copy, Clone, Debug, PartialEq, Eq, Structural)]
pub enum Radix {
    Binary,
    Octal,
    Decimal,
    Hexadecimal,
}

pub type CompileResult<T> = Result<T, CompileError>;

pub type CompileError = Locatable<Error>;

pub type CompileWarning = Locatable<Warning>;

/// A value, or an error together with a value to go on with.
pub type RecoverableResult<T, E = CompileError> = Result<T, (E, T)>;

/// An error of the compiler, by the part of it that found the error.
#[derive(Clone, Debug, PartialEq)]
pub enum Error {
    Semantic(SemanticError),
    Syntax(SyntaxError),
    PreProcessor(CppError),
    Lex(LexError),
}

/// Semantic errors are non-exhaustive and may have new variants added at any time
#[derive(Clone, Debug, PartialEq)]
pub enum SemanticError {
    Generic(String),
    /// A type named `long` this many times.
    TooLong(usize),
    ConflictingSigned,
    AutoAtGlobalScope,
    EmptyProgram,
    NonIntegralLength,
    NegativeLength,
    DuplicateParameter(String),
    InvalidVoidParameter,
    EnumOverflow,
    VoidType,
    UndeclaredVar(String),
    TypedefInExpressionContext,
    IdInTypeName(String),
    /// The reason why the target cannot be assigned to.
    NotAssignable(String),
    /// (expected, actual)
    WrongArgumentNumber(usize, usize),
    InvalidAddressOf(&'static str),
    ConstOverflow { is_positive: bool },
    DivideByZero,
    NegativeShift { is_left: bool },
    NullPointerDereference,
    VoidCast,
    StructCast,
    UnreachableStatement,
    UndeclaredLabel(String),
    CaseOutsideSwitch { is_default: bool },
    DuplicateCase { is_default: bool },
    EmptyInitializer,
    TooManyMembers(usize, usize),
    ForwardDeclarationIncomplete(String, String),
    IllegalMainSignature,
    Redefinition(String),
    MissingReturnValue(String),
    ReturnFromVoid(String),
}

/// Syntax errors are non-exhaustive and may have new variants added at any time
#[derive(Clone, Debug, PartialEq)]
pub enum SyntaxError {
    Generic(String),
    EndOfFile(&'static str),
    NotAStatement(super::lex::Keyword),
    MissingPrimary,
    ExpectedId(Option<Token>),
    ExpectedDeclSpecifier(super::lex::Keyword),
    ExpectedDeclarator,
    ExpectedType,
    ExpectedDeclaratorStart(Token),
    MissingFunctionName,
    StaticInConcreteArray,
}

/// Preprocessing errors are non-exhaustive and may have new variants added at any time
#[derive(Clone, Debug, PartialEq)]
pub enum CppError {
    /// A user-defined error (`#error`) was present, followed by these tokens.
    User(Vec<Token>),
    /// An invalid directive was present, such as `#invalid`
    InvalidDirective,
    /// A valid token was present in an invalid position, such as `#if *`
    UnexpectedToken(&'static str, Token),
    /// The file ended in the middle of a directive.
    EndOfFile(&'static str),
    FileNotFound(String),
    TooFewArguments(usize, usize),
    IO(String),
    /// The file ended before an `#if`, `#ifdef`, or `#ifndef` was closed.
    UnterminatedIf,
    /// An `#if` occurred without an expression following.
    EmptyExpression,
    /// A `#define` occured without an identifier following.
    EmptyDefine,
    /// An `#include<>` or `#include""` was present.
    EmptyInclude,
    /// A `#endif` was present, but no `#if` was currently open
    UnexpectedEndIf,
    /// An `#else` was present without an open `#if`, or after another `#else`.
    UnexpectedElse,
    /// An `#elif` was present without an open `#if` (`early`), or after an `#else`.
    UnexpectedElif { early: bool },
}

/// Lex errors are non-exhaustive and may have new variants added at any time
#[derive(Clone, Copy, Debug, PartialEq, Eq, Structural)]
pub enum LexError {
    UnterminatedComment,
    NoNewlineAtEOF,
    UnknownToken(char),
    MissingEndQuote { string: bool },
    NewlineInString,
    CharEscapeOutOfRange(Radix),
    IntegerOverflow { is_signed: Option<bool> },
    ExponentMissingDigits,
    MissingDigits(Radix),
    InvalidDigit { digit: u32, radix: Radix },
    MultiCharCharLiteral,
    /// A character literal that starts with a byte outside ASCII, not written as an escape.
    MultiByteCharLiteral,
    NewlineInChar,
    EmptyChar,
    FloatUnderflow,
}

/// Warnings are non-exhaustive and may have new variants added at any time
#[derive(Clone, Debug, PartialEq)]
pub enum Warning {
    Generic(String),
    /// A #warning directive was present, followed by the tokens in this variant.
    User(Vec<Token>),
    ExtraneousSemicolon(&'static str),
    EmptyDeclaration,
    IgnoredPragma,
    IgnoredVariadic,
    ImplicitInt,
    ExtraneousExtern,
    /// A backslash in a character or string literal was followed by this byte,
    /// which starts no escape sequence.
    UnknownCharEscape(u8),
    /// An integer literal was written in binary (`0b...`).
    BinaryLiteral,
}

/// Holds the errors and warnings that a part of the compiler produced.
///
/// Each part of the compiler may find several errors before it gives up, which a plain
/// `Result` cannot hold; they queue up here, oldest first.
#[derive(Clone, Debug, PartialEq)]
pub struct ErrorHandler<T = Error> {
    errors: VecDeque<Locatable<T>>,
    warnings: VecDeque<CompileWarning>,
}

impl<T> Default for ErrorHandler<T> {
    fn default() -> (r: Self)
        ensures
            r.errors_view() == Seq::<Locatable<T>>::empty(),
            r.warnings_view() == Seq::<CompileWarning>::empty(),
    {
        ErrorHandler { errors: VecDeque::new(), warnings: VecDeque::new() }
    }
}

/// Located errors with their data converted by `From`, each at its own location.
pub open spec fn converted<S, T: From<S>>(errors: Seq<Locatable<S>>) -> Seq<Locatable<T>> {
    errors.map_values(|l: Locatable<S>| Locatable { data: T::from_spec(l.data), location: l.location })
}

impl<T> ErrorHandler<T> {
    /// The errors held, oldest first.
    pub closed spec fn errors_view(&self) -> Seq<Locatable<T>> {
        self.errors@
    }

    /// The warnings held, oldest first.
    pub closed spec fn warnings_view(&self) -> Seq<CompileWarning> {
        self.warnings@
    }

    /// Construct a new error handler.
    pub fn new() -> (r: ErrorHandler<T>)
        ensures
            r.errors_view() == Seq::<Locatable<T>>::empty(),
            r.warnings_view() == Seq::<CompileWarning>::empty(),
    {
        ErrorHandler { errors: VecDeque::new(), warnings: VecDeque::new() }
    }

    /// The warnings held, oldest first.
    pub fn warnings(&self) -> (r: &VecDeque<CompileWarning>)
        ensures
            r@ == self.warnings_view(),
    {
        &self.warnings
    }

    /// Add an error at the back of the queue.
    pub fn push_back(&mut self, error: Locatable<T>)
        ensures
            final(self).errors_view() == old(self).errors_view().push(error),
            final(self).warnings_view() == old(self).warnings_view(),
    {
        self.errors.push_back(error);
    }

    /// Remove the oldest error from the queue.
    pub fn pop_front(&mut self) -> (r: Option<Locatable<T>>)
        ensures
            old(self).errors_view().len() == 0 ==> r.is_none() && final(self).errors_view() == old(self).errors_view(),
            old(self).errors_view().len() > 0 ==> r == Some(old(self).errors_view()[0])
                && final(self).errors_view() == old(self).errors_view().drop_first(),
            final(self).warnings_view() == old(self).warnings_view(),
    {
        self.errors.pop_front()
    }

    /// Add a warning at `location`.
    pub fn warn(&mut self, warning: Warning, location: Location)
        ensures
            final(self).warnings_view() == old(self).warnings_view().push((Locatable { data: warning, location: location })),
            final(self).errors_view() == old(self).errors_view(),
    {
        self.warnings.push_back(location.with(warning));
    }

    /// Add an error at `location`.
    pub fn error(&mut self, error: T, location: Location)
        ensures
            final(self).errors_view() == old(self).errors_view().push((Locatable { data: error, location: location })),
            final(self).warnings_view() == old(self).warnings_view(),
    {
        self.errors.push_back(location.with(error));
    }

    /// Add errors at the back of the queue, in their order.
    pub fn extend(&mut self, errors: Vec<Locatable<T>>)
        ensures
            final(self).errors_view() == old(self).errors_view() + errors@,
            final(self).warnings_view() == old(self).warnings_view(),
    {
        let mut rest = errors;
        let ghost added = rest@;
        while rest.len() > 0
            invariant
                old(self).errors_view() + added == self.errors_view() + rest@,
                self.warnings_view() == old(self).warnings_view(),
            decreases rest.len(),
        {
            let ghost whole = rest@;
            let e = rest.remove(0);
            proof {
                let before = self.errors_view();
                assert(before.push(e) + rest@ =~= before + whole);
            }
            self.errors.push_back(e);
        }
        proof {
            assert(self.errors_view() + rest@ =~= self.errors_view());
        }
    }

    /// Move the errors and warnings of `other` into this handler, after its own, each
    /// error converted by `From`; `other` is left empty.
    pub fn append<S>(&mut self, other: &mut ErrorHandler<S>)
        where
            T: From<S>,
        ensures
            final(self).errors_view().len() == old(self).errors_view().len() + old(other).errors_view().len(),
            final(self).errors_view().take(old(self).errors_view().len() as int) == old(self).errors_view(),
            forall|i: int| 0 <= i < old(other).errors_view().len() ==>
                (#[trigger] final(self).errors_view()[old(self).errors_view().len() + i]).location
                    == old(other).errors_view()[i].location,
            T::obeys_from_spec() ==> final(self).errors_view() == old(self).errors_view() + converted::<S, T>(
                old(other).errors_view(),
            ),
            final(self).warnings_view() == old(self).warnings_view() + old(other).warnings_view(),
            final(other).errors_view() == Seq::<Locatable<S>>::empty(),
            final(other).warnings_view() == Seq::<CompileWarning>::empty(),
    {
        let ghost start = self.errors_view();
        let ghost moved = other.errors_view();
        let ghost mut k: int = 0;
        while other.errors.len() > 0
            invariant
                0 <= k <= moved.len(),
                other.errors_view() == moved.skip(k),
                self.errors_view().len() == start.len() + k,
                self.errors_view().take(start.len() as int) == start,
                forall|i: int| 0 <= i < k ==>
                    (#[trigger] self.errors_view()[start.len() + i]).location == moved[i].location
                        && (T::obeys_from_spec() ==> self.errors_view()[start.len() + i].data == T::from_spec(
                        moved[i].data,
                    )),
                self.warnings_view() == old(self).warnings_view(),
                other.warnings_view() == old(other).warnings_view(),
                start == old(self).errors_view(),
                moved == old(other).errors_view(),
            decreases other.errors_view().len(),
        {
            let e = other.errors.pop_front();
            match e {
                Some(e) => {
                    let ghost before = self.errors_view();
                    let location = e.location;
                    let data = T::from(e.data);
                    self.errors.push_back(Locatable { data, location });
                    proof {
                        assert(moved.skip(k)[0] == moved[k]);
                        assert(moved.skip(k).drop_first() =~= moved.skip(k + 1));
                        assert(self.errors_view().take(start.len() as int) =~= before.take(start.len() as int));
                        k = k + 1;
                    }
                },
                None => {},
            }
        }
        self.warnings.append(&mut other.warnings);
        proof {
            assert(self.errors_view().take(start.len() as int) =~= start);
            assert(k == moved.len());
            if T::obeys_from_spec() {
                let all = start + converted::<S, T>(moved);
                assert forall|j: int| 0 <= j < self.errors_view().len() implies self.errors_view()[j] == all[j] by {
                    if j < start.len() {
                        assert(self.errors_view()[j] == self.errors_view().take(start.len() as int)[j]);
                    } else {
                        let i = j - start.len();
                        assert(self.errors_view()[start.len() + i].location == moved[i].location);
                    }
                }
                assert(self.errors_view() =~= all);
            }
        }
    }

    /// Take all the errors out of the queue, oldest first.
    pub fn drain_errors(&mut self) -> (r: Vec<Locatable<T>>)
        ensures
            r@ == old(self).errors_view(),
            final(self).errors_view() == Seq::<Locatable<T>>::empty(),
            final(self).warnings_view() == old(self).warnings_view(),
    {
        let mut out: Vec<Locatable<T>> = Vec::new();
        while self.errors.len() > 0
            invariant
                out@ + self.errors_view() == old(self).errors_view(),
                self.warnings_view() == old(self).warnings_view(),
            decreases self.errors_view().len(),
        {
            let ghost before = self.errors_view();
            let e = self.errors.pop_front();
            match e {
                Some(e) => {
                    out.push(e);
                    proof {
                        assert(out@ + self.errors_view() =~= old(self).errors_view()) by {
                            assert(before =~= seq![e] + before.drop_first());
                        }
                    }
                },
                None => {},
            }
        }
        proof {
            assert(out@ + self.errors_view() =~= out@);
        }
        out
    }
}

impl ErrorHandler<Error> {
    /// The next error in the queue, oldest first: the queue read as an iterator.
    pub fn next(&mut self) -> (r: Option<CompileError>)
        ensures
            old(self).errors_view().len() == 0 ==> r.is_none() && final(self).errors_view() == old(self).errors_view(),
            old(self).errors_view().len() > 0 ==> r == Some(old(self).errors_view()[0])
                && final(self).errors_view() == old(self).errors_view().drop_first(),
            final(self).warnings_view() == old(self).warnings_view(),
    {
        self.pop_front()
    }
}

impl Error {
    /// Whether the error was found while reading tokens.
    pub fn is_lex_err(&self) -> (r: bool)
        ensures
            r == (*self is Lex),
    {
        match self {
            Error::Lex(_) => true,
            _ => false,
        }
    }

    /// Whether the error is one of syntax.
    pub fn is_syntax_err(&self) -> (r: bool)
        ensures
            r == (*self is Syntax),
    {
        match self {
            Error::Syntax(_) => true,
            _ => false,
        }
    }

    /// Whether the error is one of meaning (a semantic error).
    pub fn is_semantic_err(&self) -> (r: bool)
        ensures
            r == (*self is Semantic),
    {
        match self {
            Error::Semantic(_) => true,
            _ => false,
        }
    }
}

impl Locatable<Error> {
    /// A semantic error with the message `err`, at its location.
    pub fn semantic(err: Locatable<String>) -> (r: Self)
        ensures
            r.data == Error::Semantic(SemanticError::Generic(err.data)),
            r.location == err.location,
    {
        Self::from(err)
    }

    /// Where the error was found.
    pub fn location(&self) -> (r: Location)
        ensures
            r == self.location,
    {
        self.location
    }

    /// Whether the error was found while reading tokens.
    pub fn is_lex_err(&self) -> (r: bool)
        ensures
            r == (self.data is Lex),
    {
        self.data.is_lex_err()
    }

    /// Whether the error is one of syntax.
    pub fn is_syntax_err(&self) -> (r: bool)
        ensures
            r == (self.data is Syntax),
    {
        self.data.is_syntax_err()
    }

    /// Whether the error is one of meaning (a semantic error).
    pub fn is_semantic_err(&self) -> (r: bool)
        ensures
            r == (self.data is Semantic),
    {
        self.data.is_semantic_err()
    }
}

impl From<SemanticError> for Error {
    fn from(e: SemanticError) -> (r: Self) {
        Error::Semantic(e)
    }
}

impl FromSpecImpl<SemanticError> for Error {
    open spec fn obeys_from_spec() -> bool {
        true
    }

    open spec fn from_spec(v: SemanticError) -> Self {
        Error::Semantic(v)
    }
}

impl From<SyntaxError> for Error {
    fn from(e: SyntaxError) -> (r: Self) {
        Error::Syntax(e)
    }
}

impl FromSpecImpl<SyntaxError> for Error {
    open spec fn obeys_from_spec() -> bool {
        true
    }

    open spec fn from_spec(v: SyntaxError) -> Self {
        Error::Syntax(v)
    }
}

impl From<CppError> for Error {
    fn from(e: CppError) -> (r: Self) {
        Error::PreProcessor(e)
    }
}

impl FromSpecImpl<CppError> for Error {
    open spec fn obeys_from_spec() -> bool {
        true
    }

    open spec fn from_spec(v: CppError) -> Self {
        Error::PreProcessor(v)
    }
}

impl From<LexError> for Error {
    fn from(e: LexError) -> (r: Self) {
        Error::Lex(e)
    }
}

impl FromSpecImpl<LexError> for Error {
    open spec fn obeys_from_spec() -> bool {
        true
    }

    open spec fn from_spec(v: LexError) -> Self {
        Error::Lex(v)
    }
}

impl From<String> for SemanticError {
    fn from(msg: String) -> (r: Self) {
        SemanticError::Generic(msg)
    }
}

impl FromSpecImpl<String> for SemanticError {
    open spec fn obeys_from_spec() -> bool {
        true
    }

    open spec fn from_spec(v: String) -> Self {
        SemanticError::Generic(v)
    }
}

impl From<String> for SyntaxError {
    fn from(msg: String) -> (r: Self) {
        SyntaxError::Generic(msg)
    }
}

impl FromSpecImpl<String> for SyntaxError {
    open spec fn obeys_from_spec() -> bool {
        true
    }

    open spec fn from_spec(v: String) -> Self {
        SyntaxError::Generic(v)
    }
}

impl From<String> for Warning {
    fn from(msg: String) -> (r: Self) {
        Warning::Generic(msg)
    }
}

impl FromSpecImpl<String> for Warning {
    open spec fn obeys_from_spec() -> bool {
        true
    }

    open spec fn from_spec(v: String) -> Self {
        Warning::Generic(v)
    }
}

impl From<Locatable<String>> for Locatable<SemanticError> {
    fn from(err: Locatable<String>) -> (r: Self) {
        Locatable { data: SemanticError::Generic(err.data), location: err.location }
    }
}

impl FromSpecImpl<Locatable<String>> for Locatable<SemanticError> {
    open spec fn obeys_from_spec() -> bool {
        true
    }

    open spec fn from_spec(v: Locatable<String>) -> Self {
        Locatable { data: SemanticError::Generic(v.data), location: v.location }
    }
}

impl From<Locatable<String>> for Locatable<Error> {
    fn from(err: Locatable<String>) -> (r: Self) {
        Locatable { data: Error::Semantic(SemanticError::Generic(err.data)), location: err.location }
    }
}

impl FromSpecImpl<Locatable<String>> for Locatable<Error> {
    open spec fn obeys_from_spec() -> bool {
        true
    }

    open spec fn from_spec(v: Locatable<String>) -> Self {
        Locatable { data: Error::Semantic(SemanticError::Generic(v.data)), location: v.location }
    }
}

impl From<Locatable<SemanticError>> for Locatable<Error> {
    fn from(err: Locatable<SemanticError>) -> (r: Self) {
        Locatable { data: Error::Semantic(err.data), location: err.location }
    }
}

impl FromSpecImpl<Locatable<SemanticError>> for Locatable<Error> {
    open spec fn obeys_from_spec() -> bool {
        true
    }

    open spec fn from_spec(v: Locatable<SemanticError>) -> Self {
        Locatable { data: Error::Semantic(v.data), location: v.location }
    }
}

impl From<Locatable<SyntaxError>> for Locatable<Error> {
    fn from(err: Locatable<SyntaxError>) -> (r: Self) {
        Locatable { data: Error::Syntax(err.data), location: err.location }
    }
}

impl FromSpecImpl<Locatable<SyntaxError>> for Locatable<Error> {
    open spec fn obeys_from_spec() -> bool {
        true
    }

    open spec fn from_spec(v: Locatable<SyntaxError>) -> Self {
        Locatable { data: Error::Syntax(v.data), location: v.location }
    }
}

impl From<Locatable<CppError>> for Locatable<Error> {
    fn from(err: Locatable<CppError>) -> (r: Self) {
        Locatable { data: Error::PreProcessor(err.data), location: err.location }
    }
}

impl FromSpecImpl<Locatable<CppError>> for Locatable<Error> {
    open spec fn obeys_from_spec() -> bool {
        true
    }

    open spec fn from_spec(v: Locatable<CppError>) -> Self {
        Locatable { data: Error::PreProcessor(v.data), location: v.location }
    }
}

impl From<Locatable<LexError>> for Locatable<Error> {
    fn from(err: Locatable<LexError>) -> (r: Self) {
        Locatable { data: Error::Lex(err.data), location: err.location }
    }
}

impl FromSpecImpl<Locatable<LexError>> for Locatable<Error> {
    open spec fn obeys_from_spec() -> bool {
        true
    }

    open spec fn from_spec(v: Locatable<LexError>) -> Self {
        Locatable { data: Error::Lex(v.data), location: v.location }
    }
}

/// A result that can be recovered from: on failure it still holds a value to go on
/// with, and recovering records its errors in an error handler.
pub trait Recover: Sized {
    type Ok;

    /// The errors that recovering records, in order.
    spec fn recovered_errors(self) -> Seq<CompileError>;

    /// The value that recovering gives back.
    spec fn recovered_value(self) -> Self::Ok;

    /// Give back the value, and record the errors at the back of `error_handler`.
    fn recover(self, error_handler: &mut ErrorHandler) -> (r: Self::Ok)
        ensures
            r == self.recovered_value(),
            final(error_handler).errors_view() == old(error_handler).errors_view() + self.recovered_errors(),
            final(error_handler).warnings_view() == old(error_handler).warnings_view(),
    ;
}

impl<T> Recover for Result<T, (CompileError, T)> {
    type Ok = T;

    open spec fn recovered_errors(self) -> Seq<CompileError> {
        match self {
            Ok(_) => Seq::empty(),
            Err((e, _)) => seq![e],
        }
    }

    open spec fn recovered_value(self) -> T {
        match self {
            Ok(v) => v,
            Err((_, v)) => v,
        }
    }

    fn recover(self, error_handler: &mut ErrorHandler) -> (r: T) {
        match self {
            Ok(v) => {
                proof {
                    assert(error_handler.errors_view() + Seq::<CompileError>::empty() =~= error_handler.errors_view());
                }
                v
            },
            Err((e, v)) => {
                error_handler.push_back(e);
                proof {
                    assert(old(error_handler).errors_view().push(e) =~= old(error_handler).errors_view() + seq![e]);
                }
                v
            },
        }
    }
}

impl<T> Recover for Result<T, (Vec<CompileError>, T)> {
    type Ok = T;

    open spec fn recovered_errors(self) -> Seq<CompileError> {
        match self {
            Ok(_) => Seq::empty(),
            Err((es, _)) => es@,
        }
    }

    open spec fn recovered_value(self) -> T {
        match self {
            Ok(v) => v,
            Err((_, v)) => v,
        }
    }

    fn recover(self, error_handler: &mut ErrorHandler) -> (r: T) {
        match self {
            Ok(v) => {
                proof {
                    assert(error_handler.errors_view() + Seq::<CompileError>::empty() =~= error_handler.errors_view());
                }
                v
            },
            Err((es, v)) => {
                error_handler.extend(es);
                v
            },
        }
    }
}

} // verus!
