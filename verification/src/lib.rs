//! Piko: a minimal S-expression scripting language whose values are
//! non-empty lowercase strings read as bijective base-26 numerals.
//!
//! The crate is organised as the language's pipeline: `codec` turns
//! lowercase strings into numbers and back, `sexpr` reads one line of
//! source into a symbolic tree, `ast` holds the typed expression tree,
//! `parser` builds it from the symbolic tree, and `vm` evaluates it
//! against an in-memory interpreter state. Around them, `text` holds
//! the character-level utilities, `env` the name tables, and `error`
//! the two error families.

pub mod ast;
pub mod codec;
pub mod env;
pub mod error;
pub mod parser;
pub mod sexpr;
pub mod text;
pub mod vm;
