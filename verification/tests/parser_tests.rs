use calculator_engine::parser::{
    parse, parse_operator, skip_whitespace, Operator, ParseError, ParseUserError, Token,
};

#[test]
fn test_skip_whitespace() {
    assert_eq!("bla b ", skip_whitespace("   bla b ").as_str());
    assert_eq!("bla", skip_whitespace("bla").as_str());
}

#[test]
fn test_operator() {
    assert_eq!(Operator::Plus, parse_operator("+12").unwrap());
    assert_eq!(Operator::Minus, parse_operator("-").unwrap());
    assert_eq!(Operator::Multiply, parse_operator("*").unwrap());
    assert_eq!(Operator::Divide, parse_operator("/").unwrap());
    assert!(parse_operator("b").is_err());
}

#[test]
fn tokenizes_numbers_operators_and_parentheses() {
    let tokens = parse("( 1 + 2.5 ) * 3").unwrap();
    assert_eq!(
        tokens,
        vec![
            Token::OpenParenthesis,
            Token::Number(1.0f64.to_bits()),
            Token::Operator(Operator::Plus),
            Token::Number(2.5f64.to_bits()),
            Token::CloseParenthesis,
            Token::Operator(Operator::Multiply),
            Token::Number(3.0f64.to_bits()),
        ]
    );
}

#[test]
fn signs_are_operator_tokens() {
    let tokens = parse("+12").unwrap();
    assert_eq!(
        tokens,
        vec![Token::Operator(Operator::Plus), Token::Number(12.0f64.to_bits())]
    );
}

#[test]
fn exponent_literals() {
    assert_eq!(parse("1e3").unwrap(), vec![Token::Number(1000.0f64.to_bits())]);
    assert_eq!(parse("2E+1").unwrap(), vec![Token::Number(20.0f64.to_bits())]);
    assert_eq!(parse("1.5e-1").unwrap(), vec![Token::Number(0.15f64.to_bits())]);
}

#[test]
fn whitespace_kinds_are_skipped() {
    let tokens = parse(" \t1\n+\x0c2 ").unwrap();
    assert_eq!(tokens.len(), 3);
}

#[test]
fn invalid_character_names_the_offender() {
    assert_eq!(
        parse("1 + x").unwrap_err(),
        ParseError::User(ParseUserError::InvalidOperator { operator: 'x' })
    );
    assert_eq!(
        parse(".").unwrap_err(),
        ParseError::User(ParseUserError::InvalidOperator { operator: '.' })
    );
}

#[test]
fn empty_input_is_a_generic_parse_error() {
    assert_eq!(parse("").unwrap_err(), ParseError::EmptyInput);
    assert_eq!(parse("   \t\n").unwrap_err(), ParseError::EmptyInput);
}

#[test]
fn precedence_values() {
    assert_eq!(Operator::Plus.precedence(), 1);
    assert_eq!(Operator::Minus.precedence(), 1);
    assert_eq!(Operator::Multiply.precedence(), 2);
    assert_eq!(Operator::Divide.precedence(), 2);
    assert_eq!(Token::Operator(Operator::Plus).precedence(), 1);
    assert_eq!(Token::Number(0).precedence(), usize::MAX);
    assert_eq!(Token::OpenParenthesis.precedence(), usize::MAX);
}
