use lisp_core::lexer::Token;
use lisp_core::nodes::{Node, Value};
use lisp_core::parser::{Parser, ParserError};

#[test]
fn test_parse_string() {
    let tokens = vec![Token::String("hello".to_string()), Token::EOF];
    let mut parser = Parser::new(tokens);
    let node = parser.parse_node().unwrap();
    assert!(node == Node::Atom(Value::String("hello".to_string())));
}

#[test]
fn test_parse_number() {
    let tokens = vec![Token::Number("5".to_string()), Token::EOF];
    let mut parser = Parser::new(tokens);
    let node = parser.parse_node().unwrap();
    assert!(node == Node::Atom(Value::Number("5".to_string())));
}

#[test]
fn test_parse_bool() {
    let tokens = vec![Token::Bool(true), Token::EOF];
    let mut parser = Parser::new(tokens);
    let node = parser.parse_node().unwrap();
    assert!(node == Node::Atom(Value::Boolean(true)));
}

#[test]
fn test_parse_identifier() {
    let tokens = vec![Token::Identifier("hello".to_string()), Token::EOF];
    let mut parser = Parser::new(tokens);
    let node = parser.parse_node().unwrap();
    assert!(node == Node::Variable("hello".to_string()));
}

#[test]
fn test_parse_program() {
    let tokens = vec![
        Token::Number("1".to_string()),
        Token::Number("2".to_string()),
        Token::Number("3".to_string()),
        Token::EOF,
    ];
    let mut parser = Parser::new(tokens);
    let program = parser.parse().unwrap();
    assert!(
        program
            == Node::Program(vec![
                Node::Atom(Value::Number("1".to_string())),
                Node::Atom(Value::Number("2".to_string())),
                Node::Atom(Value::Number("3".to_string())),
                Node::EOF,
            ])
    );
}

#[test]
fn test_parse_list() {
    let tokens = vec![
        Token::OpenBracket,
        Token::Number("1".to_string()),
        Token::Number("2".to_string()),
        Token::Number("3".to_string()),
        Token::CloseBracket,
        Token::EOF,
    ];
    let mut parser = Parser::new(tokens);
    let list = parser.parse_node().unwrap();
    assert!(
        list
            == Node::Atom(Value::List(vec![
                Node::Atom(Value::Number("1".to_string())),
                Node::Atom(Value::Number("2".to_string())),
                Node::Atom(Value::Number("3".to_string())),
            ]))
    );
}

#[test]
fn test_parse_nested_list() {
    let tokens = vec![
        Token::OpenBracket,
        Token::String("foo".to_string()),
        Token::OpenBracket,
        Token::Number("1".to_string()),
        Token::Number("2".to_string()),
        Token::Number("3".to_string()),
        Token::CloseBracket,
        Token::CloseBracket,
        Token::EOF,
    ];
    let mut parser = Parser::new(tokens);
    let list = parser.parse_node().unwrap();
    assert!(
        list
            == Node::Atom(Value::List(vec![
                Node::Atom(Value::String("foo".to_string())),
                Node::Atom(Value::List(vec![
                    Node::Atom(Value::Number("1".to_string())),
                    Node::Atom(Value::Number("2".to_string())),
                    Node::Atom(Value::Number("3".to_string())),
                ])),
            ]))
    );
}

#[test]
#[should_panic]
fn test_parse_not_closed_list() {
    let tokens = vec![
        Token::OpenBracket,
        Token::Number("1".to_string()),
        Token::Number("2".to_string()),
        Token::Number("3".to_string()),
        Token::EOF,
    ];
    let mut parser = Parser::new(tokens);
    let _list = parser.parse_node().unwrap();
}

#[test]
fn test_parse_function_call() {
    let tokens = vec![
        Token::OpenParen,
        Token::Identifier("foo".to_string()),
        Token::Number("1".to_string()),
        Token::Number("2".to_string()),
        Token::CloseParen,
        Token::EOF,
    ];
    let mut parser = Parser::new(tokens);
    let function_call = parser.parse_node().unwrap();
    assert!(
        function_call
            == Node::FunctionCall(
                "foo".to_string(),
                vec![
                    Node::Atom(Value::Number("1".to_string())),
                    Node::Atom(Value::Number("2".to_string())),
                ]
            )
    );
}

#[test]
#[should_panic]
fn test_parse_not_closed_function_call() {
    let tokens = vec![
        Token::OpenParen,
        Token::Identifier("foo".to_string()),
        Token::Number("1".to_string()),
        Token::Number("2".to_string()),
        Token::EOF,
    ];
    let mut parser = Parser::new(tokens);
    let _function_call = parser.parse_node().unwrap();
}

#[test]
fn test_parser_from_source() {
    let source = "
            (defn foo [x y] (+ x y))
            (foo 1 2)
        ";
    let mut parser = Parser::from_source(source.to_owned()).unwrap();
    let program = parser.parse().unwrap();
    assert!(
        program
            == Node::Program(vec![
                Node::FunctionCall(
                    "defn".to_string(),
                    vec![
                        Node::Variable("foo".to_string()),
                        Node::Atom(Value::List(vec![
                            Node::Variable("x".to_string()),
                            Node::Variable("y".to_string()),
                        ])),
                        Node::FunctionCall(
                            "+".to_string(),
                            vec![
                                Node::Variable("x".to_string()),
                                Node::Variable("y".to_string()),
                            ]
                        )
                    ]
                ),
                Node::FunctionCall(
                    "foo".to_string(),
                    vec![
                        Node::Atom(Value::Number("1".to_string())),
                        Node::Atom(Value::Number("2".to_string())),
                    ]
                ),
                Node::EOF
            ])
    );
}

#[test]
fn test_parse_twice_yields_equal_trees() {
    let tokens = vec![
        Token::OpenParen,
        Token::Identifier("foo".to_string()),
        Token::Number("1".to_string()),
        Token::CloseParen,
        Token::EOF,
    ];
    let mut first = Parser::new(tokens.clone());
    let mut second = Parser::new(tokens);
    assert!(first.parse_node().unwrap() == second.parse_node().unwrap());
}

#[test]
fn test_parse_callee_must_be_identifier() {
    let mut parser = Parser::from_source("(1 2)".to_owned()).unwrap();
    assert!(matches!(
        parser.parse(),
        Err(ParserError::UnexpectedToken(Token::Number(_), _))
    ));
}

#[test]
fn test_parse_stray_brace_is_unexpected_token() {
    let mut parser = Parser::from_source("}".to_owned()).unwrap();
    assert!(matches!(
        parser.parse(),
        Err(ParserError::UnexpectedToken(Token::CloseBrace, _))
    ));
}

#[test]
fn test_parse_unterminated_call_is_end_of_file() {
    let mut parser = Parser::from_source("(foo 1".to_owned()).unwrap();
    assert!(matches!(parser.parse(), Err(ParserError::UnexpectedEndOfFile)));
}

#[test]
fn test_parser_error_messages() {
    let mut parser = Parser::from_source("(1 2)".to_owned()).unwrap();
    match parser.parse() {
        Err(e) => assert_eq!(
            e.message(),
            "Unexpected token: Number(1) not a variable".to_string()
        ),
        Ok(_) => panic!("expected a parser error"),
    }
    let mut parser = Parser::from_source("(foo 1".to_owned()).unwrap();
    match parser.parse() {
        Err(e) => assert_eq!(e.message(), "Unexpected end of file".to_string()),
        Ok(_) => panic!("expected a parser error"),
    }
}

#[test]
fn test_parse_second_pass_is_empty_program() {
    let mut parser = Parser::from_source("1".to_owned()).unwrap();
    assert!(parser.parse().is_ok());
    match parser.parse() {
        Err(ParserError::ParserStateError(msg)) => assert_eq!(msg, "Empty program".to_string()),
        _ => panic!("expected a parser state error"),
    }
}
