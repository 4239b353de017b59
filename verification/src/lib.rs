//! A layout-sensitive lexer for an indentation-significant language.
//!
//! Source text is turned into a flat token stream in which block structure is
//! explicit: synthesized `Indent` and `Dedent` tokens are derived purely from
//! column positions by a stack-based layout engine (the "off-side rule"),
//! while a character scanner classifies the ordinary lexemes.

pub mod ast;
pub mod laws;
pub mod lexer;
pub mod model;
pub mod token;
