//! Front end of a small-language compiler: a scanner that turns source text
//! into classified tokens, and a parser that validates the token stream
//! against the grammar and reports every violation it can find.
//!
//! - `token`: token kinds, payloads and the token stream.
//! - `scan`: what scanning means; `lexer`: the scanner, proved against it.
//! - `grammar`: the phrases of the language; `syntax`: what the parser
//!   does with a token sequence, recovery included; `parser`: the parser,
//!   proved against it; `conformance`: the proof that the parser registers
//!   no diagnostic exactly on the programs of the grammar.
//! - `text`: character classes and the building of messages.

pub mod conformance;
pub mod grammar;
pub mod lexer;
pub mod parser;
pub mod scan;
pub mod syntax;
pub mod text;
pub mod token;
