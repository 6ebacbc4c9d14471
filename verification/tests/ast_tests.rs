use calculator_engine::ast::{build_ast, Ast, AstBuilder, AstError};
use calculator_engine::errors::Error;
use calculator_engine::parser::{Operator, ParseError, ParseUserError, Token};

fn test_expr(s: &str) {
    assert_eq!(s, AstBuilder::build_ast(s).unwrap().to_text().as_str());
}

#[test]
fn ast_test_simple_expression() {
    test_expr("1 + 2 / 2 + 4");
    test_expr("1 / 2 / 2 - 4");
    test_expr("1 + 2 / 2 * 4");
}

#[test]
fn test_expression_parenthesis() {
    test_expr("( 2 + 2 ) * 2");
    test_expr("2 * ( 2 + 2 )");
    test_expr("1 * ( 2 * ( 3 * ( 4 * 5 ) ) )");
}

#[test]
fn check_failing() {
    assert_eq!(
        AstBuilder::build_ast("b").unwrap_err(),
        Error::ParseError(ParseError::User(ParseUserError::InvalidOperator { operator: 'b' }))
    );
}

#[test]
fn unary_in_tree() {
    let ast = build_ast("-4 + 5").unwrap();
    match &ast {
        Ast::UnaryOperator { operator, child } => {
            assert_eq!(*operator, Operator::Minus);
            match child.as_ref() {
                Ast::BinaryOperator { operator, .. } => assert_eq!(*operator, Operator::Plus),
                other => panic!("unexpected shape: {:?}", other),
            }
        }
        other => panic!("unexpected shape: {:?}", other),
    }
}

#[test]
fn unsupported_unary_operator() {
    assert_eq!(
        build_ast("*5").unwrap_err(),
        Error::AstError(AstError::UnsupportedUnaryOperator { operator: Operator::Multiply })
    );
    assert_eq!(
        build_ast("/ 2").unwrap_err(),
        Error::AstError(AstError::UnsupportedUnaryOperator { operator: Operator::Divide })
    );
}

#[test]
fn unmatched_opening_parenthesis() {
    assert_eq!(
        build_ast("(1 + 2").unwrap_err(),
        Error::AstError(AstError::UnmatchedOpeningParenthesis { counter: 1 })
    );
    assert_eq!(
        build_ast("((1 + 2").unwrap_err(),
        Error::AstError(AstError::UnmatchedOpeningParenthesis { counter: 2 })
    );
}

#[test]
fn stray_closing_parenthesis() {
    // a close in prefix position is a stray close; one met where an infix
    // operator was expected is reported as such
    assert_eq!(
        build_ast(") 1").unwrap_err(),
        Error::AstError(AstError::UnmatchedClosingParenthesis)
    );
    assert_eq!(
        build_ast("1 + 2)").unwrap_err(),
        Error::AstError(AstError::ExpectedOperator { token: Token::CloseParenthesis })
    );
}

#[test]
fn expected_token_errors() {
    assert_eq!(
        build_ast("1 +").unwrap_err(),
        Error::AstError(AstError::ExpectedToken)
    );
    assert_eq!(
        build_ast("( )").unwrap_err(),
        Error::AstError(AstError::ExpectedToken)
    );
}

#[test]
fn round_trip_reparses_identically() {
    for s in [
        "1 + 2 * 3",
        "( 2 + 2 ) * 2",
        "-4 + 5",
        "+4 - 5",
        "1 * ( 2 * ( 3 * ( 4 * 5 ) ) )",
        "0.5 + 2.25",
        "1e300 * 2",
        "1e-5 + 0.001",
    ] {
        let first = build_ast(s).unwrap();
        let rendered = first.to_text();
        let second = build_ast(&rendered).unwrap();
        assert_eq!(first, second);
        assert_eq!(rendered, second.to_text());
    }
}
