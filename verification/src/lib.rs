//! A forgiving tokenizer and statement-tree parser for brace-and-semicolon
//! delimited schema documents (`keyword [value] { ... }` or `keyword value ;`).
//!
//! The scanner turns a byte buffer into a sequence of typed, positioned
//! tokens; the parser assembles those tokens into a generic tree of block,
//! leaf and comment nodes without enforcing any particular schema grammar.

pub mod errors;
pub mod formatting;
pub mod lexing;
pub mod parsing;
pub mod util;
