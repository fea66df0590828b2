//! A C lexer and the size/alignment rules of C types, with their contracts
//! proved by Verus.

pub mod backend;
pub mod data;
pub mod lex;
pub mod text;

use vstd::prelude::*;
use vstd::string::StringExecFns;

verus! {

/// The options of a compilation.
#[derive(Debug)]
pub struct Opt {
    /// The file where the C source came from
    pub filename: String,
    /// If set, print all tokens found by the lexer in addition to compiling.
    pub debug_lex: bool,
    /// If set, print the parsed abstract syntax tree in addition to compiling
    pub debug_ast: bool,
    /// If set, print the intermediate representation of the program in addition to compiling
    pub debug_asm: bool,
    /// If set, compile and assemble but do not link. Object file is machine-dependent.
    pub no_link: bool,
    /// The maximum number of errors to allow before giving up, a positive number.
    /// If None, allows an unlimited number of errors.
    pub max_errors: Option<usize>,
}

impl Opt {
    /// Whether the options are well formed: a limit on errors, where there is one, is
    /// positive.
    pub open spec fn valid(&self) -> bool {
        self.max_errors matches Some(n) ==> n > 0
    }
}

impl Default for Opt {
    fn default() -> (r: Self)
        ensures
            r.filename@ == "<default>"@,
            !r.debug_lex,
            !r.debug_ast,
            !r.debug_asm,
            !r.no_link,
            r.max_errors is None,
            r.valid(),
    {
        Opt {
            filename: String::from_str("<default>"),
            debug_lex: false,
            debug_ast: false,
            debug_asm: false,
            no_link: false,
            max_errors: None,
        }
    }
}

} // verus!
