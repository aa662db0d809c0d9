use vstd::prelude::*;

use crate::error::LexerError;
use crate::model::{
    is_skippable, is_word_char, keyword_of, lemma_quote_end, lemma_word_end, quote_end,
    short_operator_of, single_token_of, spec_lex, spec_lex_from, with_token, word_end,
    word_token_of,
};
use crate::token::{LiteralView, OperatorToken, TokenView};

verus! {

/// The six single-character operator symbols.
pub open spec fn is_operator_symbol(c: char) -> bool {
    c == '+' || c == '-' || c == '*' || c == '/' || c == '%' || c == '='
}

/// The operator token a lone operator symbol scans to.
pub open spec fn symbol_operator_of(c: char) -> OperatorToken {
    if c == '+' {
        OperatorToken::Add
    } else if c == '-' {
        OperatorToken::Sub
    } else if c == '*' {
        OperatorToken::STAR
    } else if c == '/' {
        OperatorToken::SLASH
    } else if c == '%' {
        OperatorToken::REM
    } else {
        OperatorToken::EQUAL
    }
}

proof fn lemma_operator_symbols_from(s: Seq<char>, i: int)
    requires
        0 <= i <= s.len(),
        forall|k: int| 0 <= k < s.len() ==> is_operator_symbol(#[trigger] s[k]),
        forall|k: int| 0 <= k && k + 1 < s.len() ==> !(#[trigger] s[k] == '=' && s[k + 1] == '='),
    ensures
        spec_lex_from(s, i) == Ok::<Seq<TokenView>, LexerError>(
            Seq::new((s.len() - i) as nat, |k: int| TokenView::Operator(symbol_operator_of(s[i + k]))),
        ),
    decreases s.len() - i,
{
    if i < s.len() {
        lemma_operator_symbols_from(s, i + 1);
        let head = TokenView::Operator(symbol_operator_of(s[i]));
        let tail = Seq::new((s.len() - (i + 1)) as nat, |k: int| TokenView::Operator(
            symbol_operator_of(s[i + 1 + k]),
        ));
        assert(seq![head] + tail =~= Seq::new((s.len() - i) as nat, |k: int| TokenView::Operator(
            symbol_operator_of(s[i + k]),
        )));
    } else {
        assert(Seq::new(0, |k: int| TokenView::Operator(symbol_operator_of(s[i + k]))) =~= Seq::<
            TokenView,
        >::empty());
    }
}

/// Over a source made only of the six operator symbols `+ - * / % =`, with
/// no `=` standing directly before another `=`, the scan succeeds with
/// exactly one operator token per character, in input order. (When `=` is
/// followed by `=` the two characters merge into one `EQUAL_EQUAL` token
/// instead: `lemma_equal_lookahead`.)
pub proof fn lemma_operator_symbols(s: Seq<char>)
    requires
        forall|k: int| 0 <= k < s.len() ==> is_operator_symbol(#[trigger] s[k]),
        forall|k: int| 0 <= k && k + 1 < s.len() ==> !(#[trigger] s[k] == '=' && s[k + 1] == '='),
    ensures
        spec_lex(s) == Ok::<Seq<TokenView>, LexerError>(
            Seq::new(s.len(), |k: int| TokenView::Operator(symbol_operator_of(s[k]))),
        ),
{
    lemma_operator_symbols_from(s, 0);
    assert(Seq::new((s.len() - 0) as nat, |k: int| TokenView::Operator(symbol_operator_of(s[0 + k])))
        =~= Seq::new(s.len(), |k: int| TokenView::Operator(symbol_operator_of(s[k]))));
}

/// Lookahead at `=`: when the next character is another `=`, both are
/// consumed for a single `EQUAL_EQUAL` token; otherwise one `EQUAL` token is
/// emitted and the following character starts a new, independent token.
pub proof fn lemma_equal_lookahead(s: Seq<char>, i: int)
    requires
        0 <= i < s.len(),
        s[i] == '=',
    ensures
        i + 1 < s.len() && s[i + 1] == '=' ==> spec_lex_from(s, i) == with_token(
            TokenView::Operator(OperatorToken::EQUAL_EQUAL),
            spec_lex_from(s, i + 2),
        ),
        !(i + 1 < s.len() && s[i + 1] == '=') ==> spec_lex_from(s, i) == with_token(
            TokenView::Operator(OperatorToken::EQUAL),
            spec_lex_from(s, i + 1),
        ),
{
}

proof fn lemma_whitespace_only_from(s: Seq<char>, i: int)
    requires
        0 <= i <= s.len(),
        forall|k: int| 0 <= k < s.len() ==> is_skippable(#[trigger] s[k]),
    ensures
        spec_lex_from(s, i) == Ok::<Seq<TokenView>, LexerError>(Seq::empty()),
    decreases s.len() - i,
{
    if i < s.len() {
        lemma_whitespace_only_from(s, i + 1);
    }
}

/// A source of nothing but whitespace and newlines scans to the empty token
/// sequence, with no error.
pub proof fn lemma_whitespace_only(s: Seq<char>)
    requires
        forall|k: int| 0 <= k < s.len() ==> is_skippable(#[trigger] s[k]),
    ensures
        spec_lex(s) == Ok::<Seq<TokenView>, LexerError>(Seq::empty()),
{
    lemma_whitespace_only_from(s, 0);
}

proof fn lemma_quote_end_none(s: Seq<char>, i: int)
    requires
        0 <= i <= s.len(),
        forall|k: int| i <= k < s.len() ==> #[trigger] s[k] != '"',
    ensures
        quote_end(s, i) == s.len(),
    decreases s.len() - i,
{
    if i < s.len() {
        lemma_quote_end_none(s, i + 1);
    }
}

/// An opening quote that no closing quote answers before the end of input
/// fails the scan with `UnterminatedString`: never a quietly returned
/// literal, and distinct from `InvalidCharacter`.
pub proof fn lemma_unterminated_string(s: Seq<char>, i: int)
    requires
        0 <= i < s.len(),
        s[i] == '"',
        forall|k: int| i < k < s.len() ==> #[trigger] s[k] != '"',
    ensures
        spec_lex_from(s, i) == Err::<Seq<TokenView>, LexerError>(LexerError::UnterminatedString),
{
    lemma_quote_end_none(s, i + 1);
}

/// A character that starts no recognized lexeme fails the scan right away
/// with `InvalidCharacter` carrying that character: it is neither skipped
/// nor misread as some token.
pub proof fn lemma_invalid_character(s: Seq<char>, i: int)
    requires
        0 <= i < s.len(),
        !is_skippable(s[i]),
        single_token_of(s[i]) is None,
        short_operator_of(s[i]) is None,
        s[i] != '"',
        !is_word_char(s[i]),
    ensures
        spec_lex_from(s, i) == Err::<Seq<TokenView>, LexerError>(
            LexerError::InvalidCharacter(s[i]),
        ),
{
}

proof fn lemma_word_end_all(s: Seq<char>, i: int)
    requires
        0 <= i <= s.len(),
        forall|k: int| 0 <= k < s.len() ==> is_word_char(#[trigger] s[k]),
    ensures
        word_end(s, i) == s.len(),
    decreases s.len() - i,
{
    if i < s.len() {
        lemma_word_end_all(s, i + 1);
    }
}

/// A source that is one whole word scans to exactly one token: the keyword
/// token when the word is reserved, an identifier carrying the word itself
/// otherwise — a reserved word is never misread as an identifier.
pub proof fn lemma_single_word(s: Seq<char>)
    requires
        s.len() > 0,
        forall|k: int| 0 <= k < s.len() ==> is_word_char(#[trigger] s[k]),
    ensures
        spec_lex(s) == Ok::<Seq<TokenView>, LexerError>(seq![word_token_of(s)]),
{
    lemma_word_end_all(s, 1);
    assert(is_word_char(s[0]));
    assert(!is_skippable(s[0]));
    assert(single_token_of(s[0]) is None);
    assert(short_operator_of(s[0]) is None);
    assert(s[0] != '"');
    assert(s.subrange(0, s.len() as int) =~= s);
    assert(spec_lex_from(s, s.len() as int) == Ok::<Seq<TokenView>, LexerError>(Seq::empty()));
    assert(seq![word_token_of(s)] + Seq::<TokenView>::empty() =~= seq![word_token_of(s)]);
}

/// What the data model promises of every token a scan can emit: an
/// identifier payload is never empty and never a reserved word, and a
/// string payload never contains the delimiting quote character.
pub open spec fn token_wf(t: TokenView) -> bool {
    match t {
        TokenView::Ident(w) => w.len() > 0 && keyword_of(w) is None,
        TokenView::Literal(l) => match l {
            LiteralView::STRING(w) => forall|k: int| 0 <= k < w.len() ==> #[trigger] w[k] != '"',
            _ => true,
        },
        _ => true,
    }
}

/// Every token of a successful scan satisfies the data-model invariants
/// `token_wf`.
pub proof fn lemma_token_invariants(s: Seq<char>, i: int)
    requires
        0 <= i <= s.len(),
    ensures
        spec_lex_from(s, i) matches Ok(toks) ==> forall|j: int|
            0 <= j < toks.len() ==> token_wf(#[trigger] toks[j]),
    decreases s.len() - i,
{
    if i < s.len() {
        let c = s[i];
        if is_skippable(c) {
            lemma_token_invariants(s, i + 1);
        } else if single_token_of(c) is Some {
            lemma_token_invariants(s, i + 1);
        } else if short_operator_of(c) is Some {
            if i + 1 < s.len() && s[i + 1] == '=' {
                lemma_token_invariants(s, i + 2);
            } else {
                lemma_token_invariants(s, i + 1);
            }
        } else if c == '"' {
            let close = quote_end(s, i + 1);
            lemma_quote_end(s, i + 1);
            if close < s.len() {
                lemma_token_invariants(s, close + 1);
                let w = s.subrange(i + 1, close);
                assert(forall|k: int| 0 <= k < w.len() ==> #[trigger] w[k] != '"');
            }
        } else if is_word_char(c) {
            let end = word_end(s, i + 1);
            lemma_word_end(s, i + 1);
            lemma_token_invariants(s, end);
            assert(s.subrange(i, end).len() > 0);
        }
    }
}

/// Lexing is deterministic: the outcome is a pure function of the source
/// text, so any two results that agree with the reference scan of equal
/// sources are themselves equal, token for token.
pub proof fn lemma_lex_deterministic(
    s1: Seq<char>,
    s2: Seq<char>,
    r1: Result<Seq<TokenView>, LexerError>,
    r2: Result<Seq<TokenView>, LexerError>,
)
    requires
        s1 == s2,
        r1 == spec_lex(s1),
        r2 == spec_lex(s2),
    ensures
        r1 == r2,
{
}

} // verus!
