pub mod error;
pub mod laws;
pub mod model;
pub mod scanner;
pub mod token;

use vstd::prelude::*;

use crate::error::LexerError;
use crate::model::{lemma_step_lex, spec_lex, spec_lex_from};
use crate::scanner::Scanner;
use crate::token::{Token, TokenView};

verus! {

/// Drives a fresh scanner over `source` to exhaustion and returns the
/// complete token list, in exactly the left-to-right order of the lexemes,
/// or the first lexing failure. The outcome is `spec_lex(source@)`: a pure
/// function of the source text, so two passes over equal sources agree.
/// The length bound is a machine limit: it keeps the scanner's line counter
/// inside a machine word even when every character is a newline.
pub fn lexer(source: &str) -> (r: Result<Vec<Token>, LexerError>)
    requires
        source@.len() < usize::MAX,
    ensures
        match r {
            Ok(tokens) => spec_lex(source@) == Ok::<Seq<TokenView>, LexerError>(
                tokens.deep_view(),
            ),
            Err(e) => spec_lex(source@) == Err::<Seq<TokenView>, LexerError>(e),
        },
{
    let mut scanner = Scanner::new(source);
    let mut tokens: Vec<Token> = Vec::new();
    proof {
        assert(tokens.deep_view() =~= Seq::<TokenView>::empty());
        if let Ok(rest) = spec_lex_from(source@, 0) {
            assert(tokens.deep_view() + rest =~= rest);
        }
    }
    loop
        invariant
            scanner.wf(),
            scanner.src() == source@,
            spec_lex(source@) == match spec_lex_from(source@, scanner.pos()) {
                Ok(rest) => Ok::<Seq<TokenView>, LexerError>(tokens.deep_view() + rest),
                Err(e) => Err::<Seq<TokenView>, LexerError>(e),
            },
        decreases source@.len() - scanner.pos(),
    {
        let ghost at = scanner.pos();
        match scanner.next_token() {
            Ok(Some(token)) => {
                let ghost emitted = tokens.deep_view();
                tokens.push(token);
                proof {
                    lemma_step_lex(source@, at);
                    assert(tokens.deep_view() =~= emitted + seq![token@]);
                    if let Ok(rest) = spec_lex_from(source@, scanner.pos()) {
                        assert(emitted + (seq![token@] + rest) =~= (emitted + seq![token@]) + rest);
                    }
                }
            },
            Ok(None) => {
                proof {
                    lemma_step_lex(source@, at);
                    assert(tokens.deep_view() + Seq::<TokenView>::empty() =~= tokens.deep_view());
                }
                return Ok(tokens);
            },
            Err(e) => {
                proof {
                    lemma_step_lex(source@, at);
                }
                return Err(e);
            },
        }
    }
}

} // verus!
