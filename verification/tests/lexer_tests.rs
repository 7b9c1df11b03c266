use tlisp::lexer::{tokenize, Token};

#[test]
fn lexer_test_add() {
    let program = "(+ 2 2)";
    let tokens = tokenize(program).unwrap();
    assert_eq!(
        tokens,
        vec![
            Token::LParen,
            Token::Symbol("+".to_string()),
            Token::Integer(2),
            Token::Integer(2),
            Token::RParen,
        ]
    );
}

#[test]
fn lexer_test_quotation() {
    let program = "'(1  2 3)";
    let tokens = tokenize(program).unwrap();
    assert_eq!(
        tokens,
        vec![
            Token::Quote,
            Token::LParen,
            Token::Integer(1),
            Token::Integer(2),
            Token::Integer(3),
            Token::RParen,
        ]
    )
}

#[test]
fn lexer_test_symbol() {
    let list = tokenize("#t").unwrap();
    assert_eq!(list, vec![Token::Symbol("#t".to_string())])
}

#[test]
fn lexer_string_literal() {
    let tokens = tokenize("(\"hi there\")").unwrap();
    assert_eq!(
        tokens,
        vec![Token::LParen, Token::String("hi there".to_string()), Token::RParen]
    );
}

#[test]
fn lexer_unterminated_string() {
    assert!(tokenize("\"oops").is_err());
}

#[test]
fn lexer_comment_discarded() {
    let tokens = tokenize("1 ; the rest\n2").unwrap();
    assert_eq!(tokens, vec![Token::Integer(1), Token::Integer(2)]);
}

#[test]
fn lexer_float_word() {
    let tokens = tokenize("3.14").unwrap();
    assert_eq!(tokens, vec![Token::Float((3.14f64).to_bits())]);
}

#[test]
fn lexer_infinity_word() {
    let tokens = tokenize("inf").unwrap();
    assert_eq!(tokens, vec![Token::Float(f64::INFINITY.to_bits())]);
    let tokens = tokenize("-inf").unwrap();
    assert_eq!(tokens, vec![Token::Float(f64::NEG_INFINITY.to_bits())]);
}

#[test]
fn lexer_exponent_word() {
    let tokens = tokenize("1e3").unwrap();
    assert_eq!(tokens, vec![Token::Float((1000.0f64).to_bits())]);
}

#[test]
fn lexer_integer_overflow_becomes_float() {
    let tokens = tokenize("9223372036854775808").unwrap();
    assert_eq!(
        tokens,
        vec![Token::Float((9223372036854775808.0f64).to_bits())]
    );
}

#[test]
fn lexer_words_stay_symbols() {
    // keyword, operator and cond classification belongs to the reader
    let tokens = tokenize("define cond eval").unwrap();
    assert_eq!(
        tokens,
        vec![
            Token::Symbol("define".to_string()),
            Token::Symbol("cond".to_string()),
            Token::Symbol("eval".to_string()),
        ]
    );
}
