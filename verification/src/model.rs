use vstd::prelude::*;

use crate::error::LexerError;
use crate::token::{DelimiterToken, KeywordToken, LiteralView, OperatorToken, TokenView};

verus! {

/// Characters the scanner consumes without emitting a token: space, tab,
/// carriage return and newline. Only the newline touches the line counter.
pub open spec fn is_skippable(c: char) -> bool {
    c == ' ' || c == '\t' || c == '\r' || c == '\n'
}

/// Characters that identifiers and keywords are made of: ASCII letters and
/// the underscore.
pub open spec fn is_word_char(c: char) -> bool {
    ('a' <= c && c <= 'z') || ('A' <= c && c <= 'Z') || c == '_'
}

/// The token of a single-character lexeme that needs no lookahead:
/// the seven delimiters and the five plain operator symbols.
pub open spec fn single_token_of(c: char) -> Option<TokenView> {
    if c == '(' {
        Some(TokenView::Delimiter(DelimiterToken::LEFT_PAREN))
    } else if c == ')' {
        Some(TokenView::Delimiter(DelimiterToken::RIGHT_PAREN))
    } else if c == '{' {
        Some(TokenView::Delimiter(DelimiterToken::LEFT_BRACE))
    } else if c == '}' {
        Some(TokenView::Delimiter(DelimiterToken::RIGHT_BRACE))
    } else if c == ',' {
        Some(TokenView::Delimiter(DelimiterToken::COMMA))
    } else if c == '.' {
        Some(TokenView::Delimiter(DelimiterToken::DOT))
    } else if c == ';' {
        Some(TokenView::Delimiter(DelimiterToken::SEMICOLON))
    } else if c == '+' {
        Some(TokenView::Operator(OperatorToken::Add))
    } else if c == '-' {
        Some(TokenView::Operator(OperatorToken::Sub))
    } else if c == '*' {
        Some(TokenView::Operator(OperatorToken::STAR))
    } else if c == '/' {
        Some(TokenView::Operator(OperatorToken::SLASH))
    } else if c == '%' {
        Some(TokenView::Operator(OperatorToken::REM))
    } else {
        None
    }
}

/// The one-character reading of a lookahead-sensitive operator symbol.
/// Exactly `=`, `!`, `>` and `<` peek one character ahead.
pub open spec fn short_operator_of(c: char) -> Option<OperatorToken> {
    if c == '=' {
        Some(OperatorToken::EQUAL)
    } else if c == '!' {
        Some(OperatorToken::BANG)
    } else if c == '>' {
        Some(OperatorToken::GREATER)
    } else if c == '<' {
        Some(OperatorToken::LESS)
    } else {
        None
    }
}

/// The two-character reading of a lookahead-sensitive operator symbol,
/// taken when the character after it is `=`.
pub open spec fn long_operator_of(c: char) -> Option<OperatorToken> {
    if c == '=' {
        Some(OperatorToken::EQUAL_EQUAL)
    } else if c == '!' {
        Some(OperatorToken::BANG_EQUAL)
    } else if c == '>' {
        Some(OperatorToken::GREATER_EQUAL)
    } else if c == '<' {
        Some(OperatorToken::LESS_EQUAL)
    } else {
        None
    }
}

/// The keyword a word denotes, if it is one of the seven reserved words.
pub open spec fn keyword_of(w: Seq<char>) -> Option<KeywordToken> {
    if w == seq!['l', 'e', 't'] {
        Some(KeywordToken::LET)
    } else if w == seq!['f', 'n'] {
        Some(KeywordToken::FN)
    } else if w == seq!['i', 'f'] {
        Some(KeywordToken::IF)
    } else if w == seq!['e', 'l', 's', 'e'] {
        Some(KeywordToken::ELSE)
    } else if w == seq!['r', 'e', 't', 'u', 'r', 'n'] {
        Some(KeywordToken::RETURN)
    } else if w == seq!['t', 'r', 'u', 'e'] {
        Some(KeywordToken::TRUE)
    } else if w == seq!['f', 'a', 'l', 's', 'e'] {
        Some(KeywordToken::FALSE)
    } else {
        None
    }
}

/// A scanned word is a keyword token if it is reserved, else an identifier.
pub open spec fn word_token_of(w: Seq<char>) -> TokenView {
    match keyword_of(w) {
        Some(k) => TokenView::Keyword(k),
        None => TokenView::Ident(w),
    }
}

/// Number of newline characters in `s`. The scanner's 1-based line counter
/// always reads 1 plus the newlines in the consumed prefix of the source.
pub open spec fn count_newlines(s: Seq<char>) -> int
    decreases s.len(),
{
    if s.len() == 0 {
        0
    } else {
        count_newlines(s.drop_last()) + if s.last() == '\n' {
            1int
        } else {
            0int
        }
    }
}

pub proof fn lemma_count_newlines_bounds(s: Seq<char>)
    ensures
        0 <= count_newlines(s) <= s.len(),
    decreases s.len(),
{
    if s.len() > 0 {
        lemma_count_newlines_bounds(s.drop_last());
    }
}

/// Consuming one more character raises the newline count by one exactly
/// when that character is a newline.
pub proof fn lemma_count_newlines_step(s: Seq<char>, i: int)
    requires
        0 <= i < s.len(),
    ensures
        count_newlines(s.take(i + 1)) == count_newlines(s.take(i)) + if s[i] == '\n' {
            1int
        } else {
            0int
        },
{
    assert(s.take(i + 1).drop_last() =~= s.take(i));
    assert(s.take(i + 1).last() == s[i]);
}

/// Newline counting splits over concatenation at any cut point.
pub proof fn lemma_count_newlines_split(s: Seq<char>, i: int, j: int)
    requires
        0 <= i <= j <= s.len(),
    ensures
        count_newlines(s.take(j)) == count_newlines(s.take(i)) + count_newlines(s.subrange(i, j)),
    decreases j - i,
{
    if i < j {
        lemma_count_newlines_split(s, i, j - 1);
        lemma_count_newlines_step(s, j - 1);
        assert(s.subrange(i, j).drop_last() =~= s.subrange(i, j - 1));
        assert(s.subrange(i, j).last() == s[j - 1]);
    } else {
        assert(s.subrange(i, i) =~= Seq::<char>::empty());
    }
}

/// First position at or after `i` that does not hold a word character.
pub open spec fn word_end(s: Seq<char>, i: int) -> int
    decreases s.len() - i when 0 <= i <= s.len()
{
    if i >= s.len() || !is_word_char(s[i]) {
        i
    } else {
        word_end(s, i + 1)
    }
}

pub proof fn lemma_word_end(s: Seq<char>, i: int)
    requires
        0 <= i <= s.len(),
    ensures
        i <= word_end(s, i) <= s.len(),
        forall|k: int| i <= k < word_end(s, i) ==> is_word_char(s[k]),
        word_end(s, i) < s.len() ==> !is_word_char(s[word_end(s, i)]),
    decreases s.len() - i,
{
    if i < s.len() && is_word_char(s[i]) {
        lemma_word_end(s, i + 1);
    }
}

/// First position at or after `i` holding a double quote; `s.len()` if the
/// rest of the input has none.
pub open spec fn quote_end(s: Seq<char>, i: int) -> int
    decreases s.len() - i when 0 <= i <= s.len()
{
    if i >= s.len() || s[i] == '"' {
        i
    } else {
        quote_end(s, i + 1)
    }
}

pub proof fn lemma_quote_end(s: Seq<char>, i: int)
    requires
        0 <= i <= s.len(),
    ensures
        i <= quote_end(s, i) <= s.len(),
        forall|k: int| i <= k < quote_end(s, i) ==> s[k] != '"',
        quote_end(s, i) < s.len() ==> s[quote_end(s, i)] == '"',
    decreases s.len() - i,
{
    if i < s.len() && s[i] != '"' {
        lemma_quote_end(s, i + 1);
    }
}

/// Puts one token in front of the rest of a scan's outcome; an error from
/// the rest of the scan stands unchanged.
pub open spec fn with_token(
    t: TokenView,
    rest: Result<Seq<TokenView>, LexerError>,
) -> Result<Seq<TokenView>, LexerError> {
    match rest {
        Ok(ts) => Ok(seq![t] + ts),
        Err(e) => Err(e),
    }
}

/// The token sequence of `s` from position `i` on, or the first failure met:
/// the reference this library's scanner is verified against. Tokens appear in
/// exactly the left-to-right order of their lexemes.
pub open spec fn spec_lex_from(s: Seq<char>, i: int) -> Result<Seq<TokenView>, LexerError>
    decreases s.len() - i when 0 <= i <= s.len()
{
    if i >= s.len() {
        Ok(Seq::empty())
    } else {
        let c = s[i];
        if is_skippable(c) {
            spec_lex_from(s, i + 1)
        } else if single_token_of(c) is Some {
            with_token(single_token_of(c)->Some_0, spec_lex_from(s, i + 1))
        } else if short_operator_of(c) is Some {
            if i + 1 < s.len() && s[i + 1] == '=' {
                with_token(TokenView::Operator(long_operator_of(c)->Some_0), spec_lex_from(s, i + 2))
            } else {
                with_token(
                    TokenView::Operator(short_operator_of(c)->Some_0),
                    spec_lex_from(s, i + 1),
                )
            }
        } else if c == '"' {
            let close = quote_end(s, i + 1);
            proof {
                lemma_quote_end(s, i + 1);
            }
            if close >= s.len() {
                Err(LexerError::UnterminatedString)
            } else {
                with_token(
                    TokenView::Literal(LiteralView::STRING(s.subrange(i + 1, close))),
                    spec_lex_from(s, close + 1),
                )
            }
        } else if is_word_char(c) {
            proof {
                lemma_word_end(s, i + 1);
            }
            with_token(word_token_of(s.subrange(i, word_end(s, i + 1))), spec_lex_from(s, word_end(s, i + 1)))
        } else {
            Err(LexerError::InvalidCharacter(c))
        }
    }
}

/// The token sequence of a whole source text, or the first failure met.
pub open spec fn spec_lex(s: Seq<char>) -> Result<Seq<TokenView>, LexerError> {
    spec_lex_from(s, 0)
}

/// Outcome of scanning a single lexeme: what one token-producing call
/// observes and where it leaves the cursor.
pub enum ScanStep {
    /// Only whitespace remained; the cursor ends at the end of the input.
    End,
    /// The first lexeme's token, and the position just past that lexeme.
    Tok(TokenView, int),
    /// The first failure, and the position where the scan stops: just past
    /// an invalid character, or the end of input for an unterminated
    /// string literal.
    Fail(LexerError, int),
}

/// One step of the reference scan from position `i`: skips whitespace, then
/// reads exactly one lexeme. This pins a single token-producing call: which
/// token or error comes out and where the cursor lands.
pub open spec fn spec_step_from(s: Seq<char>, i: int) -> ScanStep
    decreases s.len() - i when 0 <= i <= s.len()
{
    if i >= s.len() {
        ScanStep::End
    } else {
        let c = s[i];
        if is_skippable(c) {
            spec_step_from(s, i + 1)
        } else if single_token_of(c) is Some {
            ScanStep::Tok(single_token_of(c)->Some_0, i + 1)
        } else if short_operator_of(c) is Some {
            if i + 1 < s.len() && s[i + 1] == '=' {
                ScanStep::Tok(TokenView::Operator(long_operator_of(c)->Some_0), i + 2)
            } else {
                ScanStep::Tok(TokenView::Operator(short_operator_of(c)->Some_0), i + 1)
            }
        } else if c == '"' {
            let close = quote_end(s, i + 1);
            if close >= s.len() {
                ScanStep::Fail(LexerError::UnterminatedString, s.len() as int)
            } else {
                ScanStep::Tok(
                    TokenView::Literal(LiteralView::STRING(s.subrange(i + 1, close))),
                    close + 1,
                )
            }
        } else if is_word_char(c) {
            ScanStep::Tok(word_token_of(s.subrange(i, word_end(s, i + 1))), word_end(s, i + 1))
        } else {
            ScanStep::Fail(LexerError::InvalidCharacter(c), i + 1)
        }
    }
}

/// The single-lexeme step agrees with the whole remaining scan: a token
/// step prepends its token and continues at its end position, a failure
/// step is the scan's failure, and an end step is the empty remainder. The
/// step's landing position always lies past `i`, within the input.
pub proof fn lemma_step_lex(s: Seq<char>, i: int)
    requires
        0 <= i <= s.len(),
    ensures
        match spec_step_from(s, i) {
            ScanStep::End => spec_lex_from(s, i) == Ok::<Seq<TokenView>, LexerError>(Seq::empty()),
            ScanStep::Tok(t, j) => i < j <= s.len() && spec_lex_from(s, i) == with_token(
                t,
                spec_lex_from(s, j),
            ),
            ScanStep::Fail(e, j) => i < j <= s.len() && spec_lex_from(s, i) == Err::<
                Seq<TokenView>,
                LexerError,
            >(e),
        },
    decreases s.len() - i,
{
    if i < s.len() {
        if is_skippable(s[i]) {
            lemma_step_lex(s, i + 1);
        } else {
            lemma_quote_end(s, i + 1);
            lemma_word_end(s, i + 1);
        }
    }
}

} // verus!
