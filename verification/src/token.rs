use vstd::prelude::*;

verus! {

/// One lexical token. A token is an immutable value: its payload owns its
/// text, so a token stays meaningful after the scanner that produced it is
/// gone. Equality is structural: same kind, same payload.
#[allow(non_camel_case_types)]
#[derive(Debug, Clone, PartialEq)]
pub enum Token {
    Ident(String),
    Keyword(KeywordToken),
    Delimiter(DelimiterToken),
    Operator(OperatorToken),
    Literal(LiteralToken),
}

/// The seven reserved words of the language.
#[allow(non_camel_case_types)]
#[derive(Debug, Clone, Copy, PartialEq, Eq, Structural)]
pub enum KeywordToken {
    LET,
    FN,
    IF,
    ELSE,
    RETURN,
    TRUE,
    FALSE,
}

#[allow(non_camel_case_types)]
#[derive(Debug, Clone, Copy, PartialEq, Eq, Structural)]
pub enum DelimiterToken {
    /// (
    LEFT_PAREN,
    /// )
    RIGHT_PAREN,
    /// {
    LEFT_BRACE,
    /// }
    RIGHT_BRACE,
    /// ,
    COMMA,
    /// .
    DOT,
    /// ;
    SEMICOLON,
}

#[allow(non_camel_case_types)]
#[derive(Debug, Clone, Copy, PartialEq, Eq, Structural)]
pub enum OperatorToken {
    /// +
    Add,
    /// -
    Sub,
    /// *
    STAR,
    /// /
    SLASH,
    /// %
    REM,
    /// &
    AND,
    /// |
    OR,
    /// !
    BANG,
    /// !=
    BANG_EQUAL,
    /// =
    EQUAL,
    /// ==
    EQUAL_EQUAL,
    /// >
    GREATER,
    /// >=
    GREATER_EQUAL,
    /// <
    LESS,
    /// <=
    LESS_EQUAL,
}

/// Literal payloads. The scanner itself only ever emits `STRING`: `true` and
/// `false` are lexed as keywords, and numeric literals are an extension point
/// that this core leaves to later stages.
#[allow(non_camel_case_types)]
#[derive(Debug, Clone, PartialEq)]
pub enum LiteralToken {
    INT(i64),
    STRING(String),
    BOOLEAN(bool),
}

/// The mathematical value of a token: the same shape as `Token`, with text
/// payloads abstracted to character sequences. Contracts speak of these.
#[allow(non_camel_case_types)]
pub enum TokenView {
    Ident(Seq<char>),
    Keyword(KeywordToken),
    Delimiter(DelimiterToken),
    Operator(OperatorToken),
    Literal(LiteralView),
}

/// The mathematical value of a literal payload.
#[allow(non_camel_case_types)]
pub enum LiteralView {
    INT(i64),
    STRING(Seq<char>),
    BOOLEAN(bool),
}

impl View for LiteralToken {
    type V = LiteralView;

    open spec fn view(&self) -> LiteralView {
        match self {
            LiteralToken::INT(n) => LiteralView::INT(*n),
            LiteralToken::STRING(s) => LiteralView::STRING(s@),
            LiteralToken::BOOLEAN(b) => LiteralView::BOOLEAN(*b),
        }
    }
}

impl View for Token {
    type V = TokenView;

    open spec fn view(&self) -> TokenView {
        match self {
            Token::Ident(name) => TokenView::Ident(name@),
            Token::Keyword(k) => TokenView::Keyword(*k),
            Token::Delimiter(d) => TokenView::Delimiter(*d),
            Token::Operator(op) => TokenView::Operator(*op),
            Token::Literal(l) => TokenView::Literal(l@),
        }
    }
}

impl DeepView for Token {
    type V = TokenView;

    open spec fn deep_view(&self) -> TokenView {
        self.view()
    }
}

} // verus!
