use vstd::prelude::*;

verus! {

/// A lexing failure. The scanner never recovers from either condition; it
/// surfaces the error to its caller.
#[derive(Debug, Clone, PartialEq, Eq)]
pub enum LexerError {
    /// A character that starts no recognized lexeme: not whitespace, not an
    /// operator or delimiter symbol, not a quote, not a word character.
    InvalidCharacter(char),
    /// End of input was reached while scanning a string literal, before the
    /// closing quote. Distinct from `InvalidCharacter`: no character is at
    /// fault, the input simply ends inside the literal.
    UnterminatedString,
}

} // verus!
