use vstd::prelude::*;

verus! {

/// A fatal scanning or parsing failure.
///
/// Any failure aborts the whole parse: there is no partial-tree recovery.
/// Unterminated strings and comments carry the 1-based line and column of
/// their opening delimiter; the other positioned variants carry the byte
/// offset at which the offending token starts.
#[derive(Debug, PartialEq, Eq, Structural)]
pub enum ParseError {
    /// A quoted string was opened but never closed.
    UnterminatedString { line: usize, col: usize },
    /// A block comment was opened but never closed.
    UnterminatedComment { line: usize, col: usize },
    /// A byte that cannot start any token was found.
    UnexpectedCharacter { pos: usize },
    /// A token's bytes are not valid UTF-8.
    DecodeError { pos: usize },
    /// A token appeared where the grammar's local state does not accept it.
    UnexpectedToken { pos: usize },
    /// A statement keyword was immediately terminated by `;` with no value.
    MissingValue { pos: usize },
    /// The token stream was exhausted in the middle of a statement.
    UnexpectedEndOfInput,
}

} // verus!
