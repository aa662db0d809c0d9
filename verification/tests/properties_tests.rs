use lexer::error::LexerError;
use lexer::lexer;
use lexer::scanner::{is_keyword, Scanner};
use lexer::token::{DelimiterToken, KeywordToken, LiteralToken, OperatorToken, Token};

#[test]
fn test_empty_source() {
    assert_eq!(lexer(""), Ok(vec![]));
}

#[test]
fn test_whitespace_only() {
    assert_eq!(lexer("  \t\r\n   \n\t"), Ok(vec![]));
}

#[test]
fn test_all_keywords() {
    let tokens = lexer("let fn if else return true false").unwrap();
    let expected = vec![
        Token::Keyword(KeywordToken::LET),
        Token::Keyword(KeywordToken::FN),
        Token::Keyword(KeywordToken::IF),
        Token::Keyword(KeywordToken::ELSE),
        Token::Keyword(KeywordToken::RETURN),
        Token::Keyword(KeywordToken::TRUE),
        Token::Keyword(KeywordToken::FALSE),
    ];
    assert_eq!(tokens, expected);
}

#[test]
fn test_is_keyword_classification() {
    assert_eq!(is_keyword("let"), Some(KeywordToken::LET));
    assert_eq!(is_keyword("return"), Some(KeywordToken::RETURN));
    assert_eq!(is_keyword("lets"), None);
    assert_eq!(is_keyword("Let"), None);
    assert_eq!(is_keyword(""), None);
}

#[test]
fn test_identifiers_not_keywords() {
    let tokens = lexer("letter fnord _tmp").unwrap();
    let expected = vec![
        Token::Ident("letter".to_string()),
        Token::Ident("fnord".to_string()),
        Token::Ident("_tmp".to_string()),
    ];
    assert_eq!(tokens, expected);
}

#[test]
fn test_delimiters() {
    let tokens = lexer("(){},.;").unwrap();
    let expected = vec![
        Token::Delimiter(DelimiterToken::LEFT_PAREN),
        Token::Delimiter(DelimiterToken::RIGHT_PAREN),
        Token::Delimiter(DelimiterToken::LEFT_BRACE),
        Token::Delimiter(DelimiterToken::RIGHT_BRACE),
        Token::Delimiter(DelimiterToken::COMMA),
        Token::Delimiter(DelimiterToken::DOT),
        Token::Delimiter(DelimiterToken::SEMICOLON),
    ];
    assert_eq!(tokens, expected);
}

#[test]
fn test_equal_equal_single_token() {
    assert_eq!(
        lexer("=="),
        Ok(vec![Token::Operator(OperatorToken::EQUAL_EQUAL)])
    );
}

#[test]
fn test_equal_then_other_starts_new_token() {
    let tokens = lexer("=a").unwrap();
    let expected = vec![
        Token::Operator(OperatorToken::EQUAL),
        Token::Ident("a".to_string()),
    ];
    assert_eq!(tokens, expected);
}

#[test]
fn test_lookahead_operators() {
    let tokens = lexer("! != > >= < <= ==").unwrap();
    let expected = vec![
        Token::Operator(OperatorToken::BANG),
        Token::Operator(OperatorToken::BANG_EQUAL),
        Token::Operator(OperatorToken::GREATER),
        Token::Operator(OperatorToken::GREATER_EQUAL),
        Token::Operator(OperatorToken::LESS),
        Token::Operator(OperatorToken::LESS_EQUAL),
        Token::Operator(OperatorToken::EQUAL_EQUAL),
    ];
    assert_eq!(tokens, expected);
}

#[test]
fn test_lookahead_inside_expression() {
    let tokens = lexer("a<=b").unwrap();
    let expected = vec![
        Token::Ident("a".to_string()),
        Token::Operator(OperatorToken::LESS_EQUAL),
        Token::Ident("b".to_string()),
    ];
    assert_eq!(tokens, expected);
}

#[test]
fn test_string_spanning_newline() {
    let mut scanner = Scanner::new("\"a\nb\"");
    assert_eq!(scanner.line(), 1);
    let token = scanner.next_token().unwrap().unwrap();
    assert_eq!(token, Token::Literal(LiteralToken::STRING("a\nb".to_string())));
    // exactly one embedded newline: the counter rises exactly once
    assert_eq!(scanner.line(), 2);
    assert_eq!(scanner.next_token(), Ok(None));
}

#[test]
fn test_line_counter_on_blank_lines() {
    let mut scanner = Scanner::new("\n\n");
    assert_eq!(scanner.next_token(), Ok(None));
    assert_eq!(scanner.line(), 3);
}

#[test]
fn test_unterminated_string_lone_quote() {
    assert_eq!(lexer("\""), Err(LexerError::UnterminatedString));
}

#[test]
fn test_unterminated_string_with_content() {
    assert_eq!(lexer("\"abc"), Err(LexerError::UnterminatedString));
}

#[test]
fn test_invalid_character_hash() {
    assert_eq!(lexer("#"), Err(LexerError::InvalidCharacter('#')));
}

#[test]
fn test_invalid_character_digit() {
    assert_eq!(lexer("7"), Err(LexerError::InvalidCharacter('7')));
}

#[test]
fn test_deterministic_scan() {
    let source = "let a = \"x\"; if a == b { return c; }";
    let first = lexer(source);
    let second = lexer(source);
    assert_eq!(first, second);
}

#[test]
fn test_cursor_primitives() {
    let mut scanner = Scanner::new("ab");
    assert!(!scanner.is_at_end());
    assert_eq!(scanner.peek(), 'a');
    assert_eq!(scanner.peek_next(), 'b');
    assert_eq!(scanner.read_char(), 'a');
    assert_eq!(scanner.peek(), 'b');
    assert_eq!(scanner.peek_next(), '\0');
    assert_eq!(scanner.read_char(), 'b');
    assert!(scanner.is_at_end());
    assert_eq!(scanner.peek(), '\0');
    assert_eq!(scanner.read_char(), '\0');
}
