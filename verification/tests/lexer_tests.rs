use lisp_core::lexer::{Lexer, LexerError, Token};

#[test]
fn test_lexer_new() {
    let input = String::from("(+ -1.2 2)");
    let mut l = Lexer::new(input);
    assert_eq!(l.next_token(), Ok(Token::OpenParen));
    assert_eq!(l.next_token(), Ok(Token::Identifier(String::from("+"))));
    assert_eq!(l.next_token(), Ok(Token::Number(String::from("-1.2"))));
    assert_eq!(l.next_token(), Ok(Token::Number(String::from("2"))));
    assert_eq!(l.next_token(), Ok(Token::CloseParen));
    assert_eq!(l.next_token(), Ok(Token::EOF));
}

#[test]
fn test_lexer_string() {
    let input = String::from("\"hello\"");
    let mut l = Lexer::new(input);
    assert_eq!(l.next_token(), Ok(Token::String(String::from("hello"))));
    assert_eq!(l.next_token(), Ok(Token::EOF));
}

#[test]
fn test_lexer_string_without_close() {
    let input = String::from("\"hello");
    let mut l = Lexer::new(input);
    assert!(matches!(l.next_token(), Err(LexerError::UnclosedString(_))));
}

#[test]
fn test_lexer_number() {
    let input = String::from("-1.2");
    let mut l = Lexer::new(input);
    assert_eq!(l.next_token(), Ok(Token::Number(String::from("-1.2"))));
    assert_eq!(l.next_token(), Ok(Token::EOF));
}

#[test]
fn test_lexer_identifier() {
    let input = String::from("hello");
    let mut l = Lexer::new(input);
    assert_eq!(l.next_token(), Ok(Token::Identifier(String::from("hello"))));
    assert_eq!(l.next_token(), Ok(Token::EOF));
}

#[test]
fn test_lexer_identifier_with_number() {
    let input = String::from("hello1");
    let mut l = Lexer::new(input);
    assert_eq!(l.next_token(), Ok(Token::Identifier(String::from("hello1"))));
    assert_eq!(l.next_token(), Ok(Token::EOF));
}

#[test]
fn test_lexer_identifier_with_space() {
    let input = String::from("hello 1");
    let mut l = Lexer::new(input);
    assert_eq!(l.next_token(), Ok(Token::Identifier(String::from("hello"))));
    assert_eq!(l.next_token(), Ok(Token::Number(String::from("1"))));
    assert_eq!(l.next_token(), Ok(Token::EOF));
}

#[test]
fn test_lexer_identifier_with_space_and_number() {
    let input = String::from("hello 1");
    let mut l = Lexer::new(input);
    assert_eq!(l.next_token(), Ok(Token::Identifier(String::from("hello"))));
    assert_eq!(l.next_token(), Ok(Token::Number(String::from("1"))));
    assert_eq!(l.next_token(), Ok(Token::EOF));
}

#[test]
fn test_lexer_identifier_with_space_and_number_and_space() {
    let input = String::from("hello 1 2");
    let mut l = Lexer::new(input);
    assert_eq!(l.next_token(), Ok(Token::Identifier(String::from("hello"))));
    assert_eq!(l.next_token(), Ok(Token::Number(String::from("1"))));
    assert_eq!(l.next_token(), Ok(Token::Number(String::from("2"))));
    assert_eq!(l.next_token(), Ok(Token::EOF));
}

#[test]
fn test_lexer_with_paranthesis() {
    let input = String::from("(+ 1 2)");
    let mut l = Lexer::new(input);
    assert_eq!(l.next_token(), Ok(Token::OpenParen));
    assert_eq!(l.next_token(), Ok(Token::Identifier(String::from("+"))));
    assert_eq!(l.next_token(), Ok(Token::Number(String::from("1"))));
    assert_eq!(l.next_token(), Ok(Token::Number(String::from("2"))));
    assert_eq!(l.next_token(), Ok(Token::CloseParen));
    assert_eq!(l.next_token(), Ok(Token::EOF));
}

#[test]
fn test_lexer_with_paranthesis_and_space() {
    let input = String::from("( + 1 2 ) ");
    let mut l = Lexer::new(input);
    assert_eq!(l.next_token(), Ok(Token::OpenParen));
    assert_eq!(l.next_token(), Ok(Token::Identifier(String::from("+"))));
    assert_eq!(l.next_token(), Ok(Token::Number(String::from("1"))));
    assert_eq!(l.next_token(), Ok(Token::Number(String::from("2"))));
    assert_eq!(l.next_token(), Ok(Token::CloseParen));
    assert_eq!(l.next_token(), Ok(Token::EOF));
}

#[test]
fn test_lexer_with_paranthesis_and_space_and_number() {
    let input = String::from("( + 1 2 ) 3");
    let mut l = Lexer::new(input);
    assert_eq!(l.next_token(), Ok(Token::OpenParen));
    assert_eq!(l.next_token(), Ok(Token::Identifier(String::from("+"))));
    assert_eq!(l.next_token(), Ok(Token::Number(String::from("1"))));
    assert_eq!(l.next_token(), Ok(Token::Number(String::from("2"))));
    assert_eq!(l.next_token(), Ok(Token::CloseParen));
    assert_eq!(l.next_token(), Ok(Token::Number(String::from("3"))));
    assert_eq!(l.next_token(), Ok(Token::EOF));
}

#[test]
fn test_lexer_with_brackets() {
    let input = String::from("[1 2]");
    let mut l = Lexer::new(input);
    assert_eq!(l.next_token(), Ok(Token::OpenBracket));
    assert_eq!(l.next_token(), Ok(Token::Number(String::from("1"))));
    assert_eq!(l.next_token(), Ok(Token::Number(String::from("2"))));
    assert_eq!(l.next_token(), Ok(Token::CloseBracket));
    assert_eq!(l.next_token(), Ok(Token::EOF));
}

#[test]
fn test_lexer_invalid_number() {
    let input = String::from("1.2.3");
    let mut l = Lexer::new(input);
    assert!(matches!(l.next_token(), Err(LexerError::InvalidNumber(_))));
}

#[test]
fn test_lexer_invalid_number_with_string() {
    let input = String::from("1hello");
    let mut l = Lexer::new(input);
    assert!(matches!(l.next_token(), Err(LexerError::InvalidNumber(_))));
}

#[test]
fn test_lexer_braces() {
    let input = String::from("{}");
    let mut l = Lexer::new(input);
    assert_eq!(l.next_token(), Ok(Token::OpenBrace));
    assert_eq!(l.next_token(), Ok(Token::CloseBrace));
    assert_eq!(l.next_token(), Ok(Token::EOF));
}

#[test]
fn test_lexer_braces_with_space() {
    let input = String::from("{ }");
    let mut l = Lexer::new(input);
    assert_eq!(l.next_token(), Ok(Token::OpenBrace));
    assert_eq!(l.next_token(), Ok(Token::CloseBrace));
    assert_eq!(l.next_token(), Ok(Token::EOF));
}

#[test]
fn test_lexer_braces_with_space_and_number() {
    let input = String::from("{ 1 }");
    let mut l = Lexer::new(input);
    assert_eq!(l.next_token(), Ok(Token::OpenBrace));
    assert_eq!(l.next_token(), Ok(Token::Number(String::from("1"))));
    assert_eq!(l.next_token(), Ok(Token::CloseBrace));
    assert_eq!(l.next_token(), Ok(Token::EOF));
}

#[test]
fn test_lexer_braces_with_space_and_number_and_space() {
    let input = String::from("{ 1 2 }");
    let mut l = Lexer::new(input);
    assert_eq!(l.next_token(), Ok(Token::OpenBrace));
    assert_eq!(l.next_token(), Ok(Token::Number(String::from("1"))));
    assert_eq!(l.next_token(), Ok(Token::Number(String::from("2"))));
    assert_eq!(l.next_token(), Ok(Token::CloseBrace));
    assert_eq!(l.next_token(), Ok(Token::EOF));
}

#[test]
fn test_lexer_braces_without_space_at_the_end() {
    let input = String::from("{1 \"Hello\"}");
    let mut l = Lexer::new(input);
    assert_eq!(l.next_token(), Ok(Token::OpenBrace));
    assert_eq!(l.next_token(), Ok(Token::Number(String::from("1"))));
    assert_eq!(l.next_token(), Ok(Token::String(String::from("Hello"))));
    assert_eq!(l.next_token(), Ok(Token::CloseBrace));
    assert_eq!(l.next_token(), Ok(Token::EOF));
}

#[test]
fn test_lexer_braces_without_space_at_the_end2() {
    let input = String::from("{1 Hello}");
    let mut l = Lexer::new(input);
    assert_eq!(l.next_token(), Ok(Token::OpenBrace));
    assert_eq!(l.next_token(), Ok(Token::Number(String::from("1"))));
    assert_eq!(l.next_token(), Ok(Token::Identifier(String::from("Hello"))));
    assert_eq!(l.next_token(), Ok(Token::CloseBrace));
    assert_eq!(l.next_token(), Ok(Token::EOF));
}

#[test]
fn test_lexer_with_dot() {
    let input = String::from("(.field class)");
    let mut l = Lexer::new(input);
    assert_eq!(l.next_token(), Ok(Token::OpenParen));
    assert_eq!(l.next_token(), Ok(Token::Dot));
    assert_eq!(l.next_token(), Ok(Token::Identifier(String::from("field"))));
    assert_eq!(l.next_token(), Ok(Token::Identifier(String::from("class"))));
    assert_eq!(l.next_token(), Ok(Token::CloseParen));
    assert_eq!(l.next_token(), Ok(Token::EOF));
}

#[test]
fn test_tokenize_whole_input() {
    let mut l = Lexer::new(String::from("(+ -1.2 2)"));
    let tokens = l.tokenize().unwrap();
    assert_eq!(
        tokens,
        vec![
            Token::OpenParen,
            Token::Identifier(String::from("+")),
            Token::Number(String::from("-1.2")),
            Token::Number(String::from("2")),
            Token::CloseParen,
            Token::EOF,
        ]
    );
}

#[test]
fn test_tokenize_booleans_and_strings() {
    let mut l = Lexer::new(String::from("true false truest \"true\""));
    let tokens = l.tokenize().unwrap();
    assert_eq!(
        tokens,
        vec![
            Token::Bool(true),
            Token::Bool(false),
            Token::Identifier(String::from("truest")),
            Token::String(String::from("true")),
            Token::EOF,
        ]
    );
}

#[test]
fn test_tokenize_unclosed_string_fails() {
    let mut l = Lexer::new(String::from("\"hello"));
    assert!(matches!(l.tokenize(), Err(LexerError::UnclosedString(_))));
}

#[test]
fn test_lexer_minus_alone_is_invalid_number() {
    let mut l = Lexer::new(String::from("- "));
    assert!(matches!(l.next_token(), Err(LexerError::InvalidNumber(_))));
}
