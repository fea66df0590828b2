# saltwater

The front end of a small C compiler, written in Verus: a lexer for C source, the
errors and warnings the compiler reports, and the layout rules of C types on x86-64
(sizes, alignments, member offsets) together with the types the code generator uses
for them. Each function carries a contract that Verus proves.

Layout:

- `src/lex/grammar.rs` — the lexical grammar as spec functions over bytes;
  `src/lex/mod.rs` — the lexer, proved to follow that grammar token by token;
  `src/lex/spelling.rs` — laws on how the text of tokens lexes back.
- `src/data/lex.rs` — tokens, literals, locations; `src/data/types.rs` — C types;
  `src/data/error.rs` — errors, warnings, the error queue and recovery;
  `src/data/messages.rs` — the text of every error and warning.
- `src/backend/` — sizes, alignments, offsets and intermediate-representation types.
- `src/text.rs` — decimal text and the two calls into `std` that build strings.
- `app/` — ordinary Rust around the library: `std::error::Error` impls, the values of
  floating constants, the code generator's own types, writing and linking object files.
- `tests/` — the tests of the original lexer and error handling, and tests of the laws.
