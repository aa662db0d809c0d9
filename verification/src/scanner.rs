use vstd::prelude::*;
use vstd::string::StrSliceExecFns;

use crate::error::LexerError;
use crate::model::{
    count_newlines, is_word_char, keyword_of, lemma_count_newlines_bounds,
    lemma_count_newlines_split, lemma_count_newlines_step, lemma_quote_end, lemma_word_end,
    quote_end, spec_step_from, word_end, word_token_of, ScanStep,
};
use crate::token::{
    DelimiterToken, KeywordToken, LiteralToken, LiteralView, OperatorToken, Token, TokenView,
};

verus! {

/// The scanner: the full source text, immutable for the scanner's lifetime,
/// and a cursor over it. `current` indexes the next unread character,
/// `last` the character most recently consumed, and `line` counts 1-based
/// lines, raised once for every newline consumed so far.
#[derive(Debug, Clone)]
pub struct Scanner {
    source: String,
    last: usize,
    current: usize,
    line: usize,
}

impl Scanner {
    /// The source text as a character sequence.
    pub closed spec fn src(&self) -> Seq<char> {
        self.source@
    }

    /// Index of the next unread character.
    pub closed spec fn pos(&self) -> int {
        self.current as int
    }

    /// Index of the last character actually consumed.
    pub closed spec fn prev(&self) -> int {
        self.last as int
    }

    /// The 1-based line counter.
    pub closed spec fn line_no(&self) -> int {
        self.line as int
    }

    /// The cursor stays inside the source. The strict length bound keeps the
    /// line counter, at most one more than the characters consumed, from
    /// outgrowing its machine word.
    pub open spec fn bounds_ok(&self) -> bool {
        &&& self.src().len() < usize::MAX
        &&& 0 <= self.prev() <= self.pos() <= self.src().len()
    }

    /// Well-formedness: the cursor is in bounds and the line counter reads
    /// exactly 1 plus the newlines in the consumed prefix of the source.
    pub open spec fn wf(&self) -> bool {
        &&& self.bounds_ok()
        &&& self.line_no() == 1 + count_newlines(self.src().take(self.pos()))
    }

    /// Creates a scanner over `input`, cursor at the start, line counter 1.
    pub fn new(input: &str) -> (s: Scanner)
        ensures
            s.src() == input@,
            s.pos() == 0,
            s.prev() == 0,
            s.line_no() == 1,
            input@.len() < usize::MAX ==> s.wf(),
    {
        let s = Scanner { source: input.to_owned(), last: 0, current: 0, line: 1 };
        proof {
            assert(s.src().take(0) =~= Seq::<char>::empty());
        }
        s
    }

    /// The current line number, for diagnostics.
    pub fn line(&self) -> (l: usize)
        ensures
            l == self.line_no(),
    {
        self.line
    }

    /// Whether the cursor has consumed the entire source.
    pub fn is_at_end(&self) -> (b: bool)
        ensures
            b == (self.pos() >= self.src().len()),
    {
        self.current >= self.source.as_str().unicode_len()
    }

    /// The next unread character, without consuming it; NUL once the input
    /// is exhausted.
    pub fn peek(&self) -> (c: char)
        ensures
            c == if self.pos() < self.src().len() {
                self.src()[self.pos()]
            } else {
                '\0'
            },
    {
        if self.current >= self.source.as_str().unicode_len() {
            return '\0';
        }
        self.source.as_str().get_char(self.current)
    }

    /// The character one past the next unread one, without consuming
    /// anything; NUL if that runs past the end of the input.
    pub fn peek_next(&self) -> (c: char)
        requires
            self.bounds_ok(),
        ensures
            c == if self.pos() + 1 < self.src().len() {
                self.src()[self.pos() + 1]
            } else {
                '\0'
            },
    {
        if self.current + 1 >= self.source.as_str().unicode_len() {
            return '\0';
        }
        self.source.as_str().get_char(self.current + 1)
    }

    /// Consumes and returns the next character, advancing the cursor; NUL,
    /// with the cursor untouched, once the input is exhausted. The line
    /// counter is left to the caller, which knows whether the character
    /// counts as a consumed newline yet.
    pub fn read_char(&mut self) -> (c: char)
        requires
            old(self).bounds_ok(),
        ensures
            final(self).src() == old(self).src(),
            final(self).line_no() == old(self).line_no(),
            final(self).bounds_ok(),
            old(self).pos() < old(self).src().len() ==> {
                &&& c == old(self).src()[old(self).pos()]
                &&& final(self).pos() == old(self).pos() + 1
                &&& final(self).prev() == old(self).pos()
            },
            old(self).pos() >= old(self).src().len() ==> {
                &&& c == '\0'
                &&& final(self).pos() == old(self).pos()
                &&& final(self).prev() == old(self).prev()
            },
    {
        if self.current >= self.source.as_str().unicode_len() {
            return '\0';
        }
        let c = self.source.as_str().get_char(self.current);
        self.last = self.current;
        self.current = self.current + 1;
        c
    }

    /// Scans the rest of an identifier or keyword whose first character,
    /// at `prev`, was just consumed: consumes word characters while the
    /// lookahead shows one, then classifies the whole word.
    pub fn parse_identifier(&mut self) -> (t: Token)
        requires
            old(self).wf(),
            old(self).pos() == old(self).prev() + 1,
            is_word_char(old(self).src()[old(self).prev()]),
        ensures
            final(self).wf(),
            final(self).src() == old(self).src(),
            final(self).line_no() == old(self).line_no(),
            old(self).pos() <= final(self).pos(),
            final(self).prev() == final(self).pos() - 1,
            final(self).pos() == word_end(old(self).src(), old(self).pos()),
            t@ == word_token_of(
                old(self).src().subrange(old(self).prev(), word_end(old(self).src(), old(self).pos())),
            ),
    {
        let ghost s = self.src();
        let ghost entry = self.pos();
        let start = self.last;
        loop
            invariant
                self.wf(),
                self.src() == s,
                s == old(self).src(),
                entry == old(self).pos(),
                start as int == old(self).prev(),
                self.line_no() == old(self).line_no(),
                self.prev() + 1 == self.pos(),
                entry <= self.pos() <= s.len(),
                word_end(s, entry) == word_end(s, self.pos()),
            ensures
                self.wf(),
                self.src() == s,
                self.line_no() == old(self).line_no(),
                self.prev() + 1 == self.pos(),
                entry <= self.pos() <= s.len(),
                self.pos() == word_end(s, entry),
            decreases s.len() - self.pos(),
        {
            let c = self.peek();
            if !is_word_char_exec(c) {
                proof {
                    assert(word_end(s, self.pos()) == self.pos());
                }
                break;
            }
            proof {
                lemma_count_newlines_step(s, self.pos());
            }
            self.read_char();
        }
        proof {
            lemma_word_end(s, entry);
        }
        let end = self.current;
        let word = self.source.as_str().substring_char(start, end);
        match is_keyword(word) {
            Some(k) => Token::Keyword(k),
            None => Token::Ident(word.to_owned()),
        }
    }

    /// Scans a string literal whose opening quote was just consumed: the
    /// payload runs verbatim, newlines included, to the next double quote,
    /// which is consumed but kept out of the payload. Reaching the end of
    /// the input first is the unterminated-string failure. The line counter
    /// rises once per newline inside the literal.
    pub fn parse_string(&mut self) -> (r: Result<Token, LexerError>)
        requires
            old(self).wf(),
            old(self).prev() == old(self).pos() - 1,
        ensures
            final(self).wf(),
            final(self).src() == old(self).src(),
            final(self).prev() == final(self).pos() - 1,
            final(self).line_no() >= old(self).line_no(),
            ({
                let s = old(self).src();
                let start = old(self).pos();
                let close = quote_end(s, start);
                match r {
                    Ok(t) => {
                        &&& close < s.len()
                        &&& t@ == TokenView::Literal(
                            LiteralView::STRING(s.subrange(start, close)),
                        )
                        &&& final(self).pos() == close + 1
                        &&& final(self).line_no() == old(self).line_no() + count_newlines(
                            s.subrange(start, close),
                        )
                    },
                    Err(e) => {
                        &&& e == LexerError::UnterminatedString
                        &&& close >= s.len()
                        &&& final(self).pos() == s.len()
                    },
                }
            }),
    {
        let ghost s = self.src();
        let ghost entry = self.pos();
        let start = self.current;
        loop
            invariant
                self.wf(),
                self.src() == s,
                s == old(self).src(),
                entry == old(self).pos(),
                start as int == entry,
                self.prev() == self.pos() - 1,
                entry <= self.pos() <= s.len(),
                old(self).line_no() == 1 + count_newlines(s.take(entry)),
                quote_end(s, entry) == quote_end(s, self.pos()),
            ensures
                self.wf(),
                self.src() == s,
                self.prev() == self.pos() - 1,
                entry <= self.pos() < s.len(),
                s[self.pos()] == '"',
                self.pos() == quote_end(s, entry),
            decreases s.len() - self.pos(),
        {
            if self.is_at_end() {
                proof {
                    assert(quote_end(s, self.pos()) == self.pos());
                    lemma_count_newlines_split(s, entry, self.pos());
                    lemma_count_newlines_bounds(s.subrange(entry, self.pos()));
                }
                return Err(LexerError::UnterminatedString);
            }
            let c = self.peek();
            if c == '"' {
                break;
            }
            if c == '\n' {
                proof {
                    lemma_count_newlines_bounds(s.take(self.pos()));
                }
                self.line = self.line + 1;
            }
            proof {
                lemma_count_newlines_step(s, self.pos());
            }
            self.read_char();
        }
        let close = self.current;
        proof {
            lemma_count_newlines_step(s, self.pos());
        }
        self.read_char();  // consume the closing quote
        let text = self.source.as_str().substring_char(start, close).to_owned();
        proof {
            lemma_count_newlines_split(s, entry, close as int);
            lemma_count_newlines_bounds(s.subrange(entry, close as int));
        }
        Ok(Token::Literal(LiteralToken::STRING(text)))
    }

    /// Retrieves the next token. `Ok(None)` signals that the input is
    /// exhausted: the one normal termination, not an error. Whitespace is
    /// consumed silently; every other character either opens a token or is
    /// the invalid-character failure. The outcome and the cursor's landing
    /// position are exactly the single-lexeme step `spec_step_from` at the
    /// cursor's position; the cursor never moves backwards, a call that
    /// consumes nothing leaves the scanner untouched, and one that consumes
    /// leaves `prev` on the last consumed character.
    pub fn next_token(&mut self) -> (r: Result<Option<Token>, LexerError>)
        requires
            old(self).wf(),
        ensures
            final(self).wf(),
            final(self).src() == old(self).src(),
            old(self).pos() <= final(self).pos(),
            final(self).line_no() >= old(self).line_no(),
            old(self).pos() == final(self).pos() ==> *final(self) == *old(self),
            old(self).pos() < final(self).pos() ==> final(self).prev() == final(self).pos() - 1,
            match r {
                Ok(Some(t)) => {
                    &&& old(self).pos() < final(self).pos()
                    &&& spec_step_from(old(self).src(), old(self).pos()) == ScanStep::Tok(
                        t@,
                        final(self).pos(),
                    )
                },
                Ok(None) => {
                    &&& final(self).pos() == final(self).src().len()
                    &&& spec_step_from(old(self).src(), old(self).pos()) == ScanStep::End
                },
                Err(e) => spec_step_from(old(self).src(), old(self).pos()) == ScanStep::Fail(
                    e,
                    final(self).pos(),
                ),
            },
        decreases old(self).src().len() - old(self).pos(),
    {
        let ghost s = self.src();
        let ghost p = self.pos();
        if self.is_at_end() {
            return Ok(None);
        }

        let ch = self.read_char();
        proof {
            lemma_count_newlines_bounds(s.take(p));
            lemma_count_newlines_step(s, p);
        }

        match ch {
            ' ' | '\t' | '\r' => self.next_token(),
            '\n' => {
                self.line = self.line + 1;
                self.next_token()
            },
            '+' => Ok(Some(Token::Operator(OperatorToken::Add))),
            '-' => Ok(Some(Token::Operator(OperatorToken::Sub))),
            '*' => Ok(Some(Token::Operator(OperatorToken::STAR))),
            '/' => Ok(Some(Token::Operator(OperatorToken::SLASH))),
            '%' => Ok(Some(Token::Operator(OperatorToken::REM))),
            '=' => {
                if self.peek() == '=' {
                    proof {
                        lemma_count_newlines_step(s, p + 1);
                    }
                    self.read_char();
                    return Ok(Some(Token::Operator(OperatorToken::EQUAL_EQUAL)));
                }
                Ok(Some(Token::Operator(OperatorToken::EQUAL)))
            },
            '!' => {
                if self.peek() == '=' {
                    proof {
                        lemma_count_newlines_step(s, p + 1);
                    }
                    self.read_char();
                    return Ok(Some(Token::Operator(OperatorToken::BANG_EQUAL)));
                }
                Ok(Some(Token::Operator(OperatorToken::BANG)))
            },
            '>' => {
                if self.peek() == '=' {
                    proof {
                        lemma_count_newlines_step(s, p + 1);
                    }
                    self.read_char();
                    return Ok(Some(Token::Operator(OperatorToken::GREATER_EQUAL)));
                }
                Ok(Some(Token::Operator(OperatorToken::GREATER)))
            },
            '<' => {
                if self.peek() == '=' {
                    proof {
                        lemma_count_newlines_step(s, p + 1);
                    }
                    self.read_char();
                    return Ok(Some(Token::Operator(OperatorToken::LESS_EQUAL)));
                }
                Ok(Some(Token::Operator(OperatorToken::LESS)))
            },
            ';' => Ok(Some(Token::Delimiter(DelimiterToken::SEMICOLON))),
            '(' => Ok(Some(Token::Delimiter(DelimiterToken::LEFT_PAREN))),
            ')' => Ok(Some(Token::Delimiter(DelimiterToken::RIGHT_PAREN))),
            '{' => Ok(Some(Token::Delimiter(DelimiterToken::LEFT_BRACE))),
            '}' => Ok(Some(Token::Delimiter(DelimiterToken::RIGHT_BRACE))),
            ',' => Ok(Some(Token::Delimiter(DelimiterToken::COMMA))),
            '.' => Ok(Some(Token::Delimiter(DelimiterToken::DOT))),
            '"' => {
                proof {
                    lemma_quote_end(s, p + 1);
                }
                match self.parse_string() {
                    Ok(t) => Ok(Some(t)),
                    Err(e) => Err(e),
                }
            },
            _ => {
                if is_word_char_exec(ch) {
                    Ok(Some(self.parse_identifier()))
                } else {
                    Err(LexerError::InvalidCharacter(ch))
                }
            },
        }
    }
}

impl From<&str> for Scanner {
    /// Same as `Scanner::new`: a fresh scanner over `value`, cursor at the
    /// start, line counter 1.
    fn from(value: &str) -> (s: Scanner)
        ensures
            s.src() == value@,
            s.pos() == 0,
            s.prev() == 0,
            s.line_no() == 1,
            value@.len() < usize::MAX ==> s.wf(),
    {
        Scanner::new(value)
    }
}

impl vstd::std_specs::convert::FromSpecImpl<&str> for Scanner {
    /// No spec-level `from_spec` can name the `String` value the scanner
    /// will own, so the contract lives on the impl method above instead.
    open spec fn obeys_from_spec() -> bool {
        false
    }

    open spec fn from_spec(v: &str) -> Scanner {
        arbitrary()
    }
}

/// Whether `c` can make up an identifier or keyword: an ASCII letter or the
/// underscore.
fn is_word_char_exec(c: char) -> (b: bool)
    ensures
        b == is_word_char(c),
{
    ('a' <= c && c <= 'z') || ('A' <= c && c <= 'Z') || c == '_'
}

/// The keyword `s` denotes, if it is one of the seven reserved words;
/// `None` leaves it an identifier.
pub fn is_keyword(s: &str) -> (r: Option<KeywordToken>)
    ensures
        r == keyword_of(s@),
{
    let n = s.unicode_len();
    if n == 3 && s.get_char(0) == 'l' && s.get_char(1) == 'e' && s.get_char(2) == 't' {
        proof {
            assert(s@ =~= seq!['l', 'e', 't']);
        }
        Some(KeywordToken::LET)
    } else if n == 2 && s.get_char(0) == 'f' && s.get_char(1) == 'n' {
        proof {
            assert(s@ =~= seq!['f', 'n']);
        }
        Some(KeywordToken::FN)
    } else if n == 2 && s.get_char(0) == 'i' && s.get_char(1) == 'f' {
        proof {
            assert(s@ =~= seq!['i', 'f']);
        }
        Some(KeywordToken::IF)
    } else if n == 4 && s.get_char(0) == 'e' && s.get_char(1) == 'l' && s.get_char(2) == 's'
        && s.get_char(3) == 'e' {
        proof {
            assert(s@ =~= seq!['e', 'l', 's', 'e']);
        }
        Some(KeywordToken::ELSE)
    } else if n == 6 && s.get_char(0) == 'r' && s.get_char(1) == 'e' && s.get_char(2) == 't'
        && s.get_char(3) == 'u' && s.get_char(4) == 'r' && s.get_char(5) == 'n' {
        proof {
            assert(s@ =~= seq!['r', 'e', 't', 'u', 'r', 'n']);
        }
        Some(KeywordToken::RETURN)
    } else if n == 4 && s.get_char(0) == 't' && s.get_char(1) == 'r' && s.get_char(2) == 'u'
        && s.get_char(3) == 'e' {
        proof {
            assert(s@ =~= seq!['t', 'r', 'u', 'e']);
        }
        Some(KeywordToken::TRUE)
    } else if n == 5 && s.get_char(0) == 'f' && s.get_char(1) == 'a' && s.get_char(2) == 'l'
        && s.get_char(3) == 's' && s.get_char(4) == 'e' {
        proof {
            assert(s@ =~= seq!['f', 'a', 'l', 's', 'e']);
        }
        Some(KeywordToken::FALSE)
    } else {
        None
    }
}

} // verus!
