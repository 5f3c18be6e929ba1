use lisp_core::lexer::is_float_literal_str;

#[test]
fn test_float_grammar_matches_double_parsing() {
    let cases = [
        "", "-", "+", ".", "..", "1", "2", "-5", "+5", "1.2", "-1.2", "1.", ".5", "-.5", "1.2.3",
        "1hello", "1e5", "1E5", "1e+5", "1e-5", "1.5e10", "1.e5", ".5e-3", "1e", "1e+", "e5",
        "inf", "INF", "Inf", "-inf", "infinity", "INFINITY", "nan", "NaN", "-nan", "infin",
        "infinityy", "nano", "0", "007", "0.0", "-0", "1 2", " 1", "1 ", "--5", "1.2e3.4",
        "9007199254740993", "1e-400", "1e400",
    ];
    for text in cases {
        let accepted = is_float_literal_str(text);
        let parses = text.parse::<f64>().is_ok();
        assert_eq!(accepted, parses, "disagreement on {:?}", text);
    }
}

#[test]
fn test_float_grammar_accepts_lexed_number_spellings() {
    // Whatever the lexer accepts as a number (after the sign it consumes
    // itself) must convert to a double on the host side.
    let mut lexer = lisp_core::lexer::Lexer::new("-1.25e2".to_string());
    match lexer.next_token() {
        Ok(lisp_core::lexer::Token::Number(text)) => {
            assert_eq!(text, "-1.25e2".to_string());
            assert_eq!(text.parse::<f64>().unwrap(), -125.0);
        }
        other => panic!("expected a number token, got {:?}", other),
    }
}
