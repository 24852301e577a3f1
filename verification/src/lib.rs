//! A pull-based event parser for a RON-like text format.
//!
//! The [`lexer`] turns source text into tokens on demand, and [`deserial`]
//! turns tokens into structural events, one per call, without building a
//! value tree. Both are specified against the source text as a sequence of
//! characters: [`lexer::lex_at`] says which token starts at a position and
//! [`grammar::step`] says which event a call gives. [`laws`] holds what
//! follows for every text. [`number`] decides which digit runs are integers
//! and which are floats, and [`text`] links byte positions to characters.

pub mod text;
pub mod number;
pub mod lexer;
pub mod grammar;
pub mod deserial;
pub mod laws;
