use calculator_engine::ast::{build_ast, Ast};
use calculator_engine::errors::Error;
use calculator_engine::interpret::{Interpreter, InterpreterError};
use calculator_engine::parser::Operator;

fn eval(s: &str) -> f64 {
    f64::from_bits(Interpreter::exec(s).unwrap())
}

#[test]
fn interpret_test_simple_expression() {
    assert_eq!(Interpreter::exec("1 + 2").map(f64::from_bits).unwrap() as i32, 3);
    assert_eq!(Interpreter::exec("2 + 2  * 2").map(f64::from_bits).unwrap() as i32, 6);
}

#[test]
fn precedence() {
    assert_eq!(eval("1 + 2 * 3"), 7.0);
    assert_eq!(eval("2 * 2 + 2"), 6.0);
    assert_eq!(eval("1 + 2 / 2 + 4"), 6.0);
}

#[test]
fn left_associativity() {
    assert_eq!(eval("8 / 2 / 2"), 2.0);
    assert_eq!(eval("8 - 2 - 2"), 4.0);
}

#[test]
fn parenthesis_grouping() {
    assert_eq!(eval("(2 + 2) * 2"), 8.0);
    assert_eq!(eval("2 * (2 + 2)"), 8.0);
}

#[test]
fn unary_sign() {
    assert_eq!(eval("-4"), -4.0);
    assert_eq!(eval("+4 - 5"), -1.0);
    // a unary sign applies to the whole expression that follows it
    assert_eq!(eval("-4 + 5"), -9.0);
}

#[test]
fn division_by_zero_follows_ieee() {
    let inf = eval("1 / 0");
    assert!(inf.is_infinite() && inf.is_sign_positive());
    let nan = eval("0 / 0");
    assert!(nan.is_nan());
    assert!(nan != nan);
}

#[test]
fn fractional_and_exponent_values() {
    assert_eq!(eval("2.5 * 2"), 5.0);
    assert_eq!(eval("1e3 + 1"), 1001.0);
    assert_eq!(eval("1.5e-1 * 2"), 0.3);
}

#[test]
fn invalid_unary_operator_is_defensive() {
    // the builder never produces such a tree; a hand-built one is reported
    let bad = Ast::UnaryOperator {
        operator: Operator::Multiply,
        child: Box::new(Ast::Number(1.0f64.to_bits())),
    };
    assert_eq!(
        Interpreter::exec_ast(&bad).unwrap_err(),
        Error::InterpreterError(InterpreterError::InvalidUnaryOperator {
            operator: Operator::Multiply
        })
    );
}

#[test]
fn exec_ast_matches_exec() {
    let ast = build_ast("1 + 2 * 3").unwrap();
    assert_eq!(
        Interpreter::exec_ast(&ast).unwrap(),
        Interpreter::exec("1 + 2 * 3").unwrap()
    );
}
