pub mod error;
pub mod lex;
pub mod messages;
pub mod types;
