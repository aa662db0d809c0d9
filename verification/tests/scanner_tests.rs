use lexer::scanner::Scanner;
use lexer::token::{DelimiterToken, KeywordToken, LiteralToken, OperatorToken, Token};

#[test]
fn test_single_operators_tokens() {
    let source = "+-*/%=";

    let mut scanner = Scanner::new(source);
    let mut tokens = vec![];

    while let Ok(Some(token)) = scanner.next_token() {
        tokens.push(token);
    }

    let expected = vec![
        Token::Operator(OperatorToken::Add),
        Token::Operator(OperatorToken::Sub),
        Token::Operator(OperatorToken::STAR),
        Token::Operator(OperatorToken::SLASH),
        Token::Operator(OperatorToken::REM),
        Token::Operator(OperatorToken::EQUAL),
    ];
    assert_eq!(tokens, expected);
}

#[test]
fn test_parse_keyword() {
    let source = "let";
    let mut scanner = Scanner::new(source);
    let token = scanner.next_token().unwrap().unwrap();
    assert_eq!(token, Token::Keyword(KeywordToken::LET));
}

#[test]
fn test_simple_statement() {
    let source = "let a = \"lower case letter 'a'\";";

    let expected = vec![
        Token::Keyword(KeywordToken::LET),
        Token::Ident("a".to_string()),
        Token::Operator(OperatorToken::EQUAL),
        Token::Literal(LiteralToken::STRING("lower case letter 'a'".to_string())),
        Token::Delimiter(DelimiterToken::SEMICOLON),
    ];

    let mut scanner = Scanner::new(source);
    let mut tokens = vec![];

    while let Ok(Some(token)) = scanner.next_token() {
        tokens.push(token);
    }

    assert_eq!(tokens, expected);
}

#[test]
fn test_char_zero() {
    let zero: char = Default::default();
    assert_eq!('\x00', zero);
}

#[test]
fn test_from() {
    let scanner = Scanner::from("let a = 100;");
    println!("{:?}", scanner);
}
