use calculator_engine::ast::{build_ast, Ast, AstError};
use calculator_engine::errors::Error;
use calculator_engine::hybrid::Hybrid;
use calculator_engine::interpret::Interpreter;
use calculator_engine::jit::{Jit, JitError, JitOptimizationLevel};
use calculator_engine::parser::Operator;

fn eval(s: &str) -> f64 {
    f64::from_bits(Hybrid::exec(s, JitOptimizationLevel::NoOptimization).unwrap())
}

#[test]
fn hybrid_precedence() {
    assert_eq!(eval("1 + 2 * 3"), 7.0);
    assert_eq!(eval("2 * 2 + 2"), 6.0);
    assert_eq!(eval("1 + 2 / 2 + 4"), 6.0);
}

#[test]
fn hybrid_left_associativity() {
    assert_eq!(eval("8 / 2 / 2"), 2.0);
}

#[test]
fn hybrid_parenthesis_grouping() {
    assert_eq!(eval("(2 + 2) * 2"), 8.0);
    assert_eq!(eval("2 * (2 + 2)"), 8.0);
}

#[test]
fn hybrid_unary_sign() {
    assert_eq!(eval("-4"), -4.0);
    assert_eq!(eval("+4 - 5"), -1.0);
    // a unary sign applies to the whole expression that follows it
    assert_eq!(eval("-4 + 5"), -9.0);
}

#[test]
fn hybrid_division_by_zero() {
    let inf = eval("1 / 0");
    assert!(inf.is_infinite() && inf.is_sign_positive());
    let nan = eval("0 / 0");
    assert!(nan.is_nan());
}

#[test]
fn hybrid_matches_interpreter_bit_for_bit() {
    for s in [
        "1 + 2 * 3",
        "8 / 2 / 2",
        "(2 + 2) * 2",
        "-4 + 5",
        "1 / 0",
        "1.5e-1 * 3",
        "1 * ( 2 * ( 3 * ( 4 * 5 ) ) )",
    ] {
        let direct = Interpreter::exec(s).unwrap();
        for level in [
            JitOptimizationLevel::NoOptimization,
            JitOptimizationLevel::Less,
            JitOptimizationLevel::Standard,
            JitOptimizationLevel::Aggressive,
        ] {
            assert_eq!(Hybrid::exec(s, level).unwrap(), direct);
            assert_eq!(Jit::exec(s, level).unwrap(), direct);
        }
    }
}

#[test]
fn hybrid_propagates_errors() {
    assert_eq!(
        Hybrid::exec("*5", JitOptimizationLevel::NoOptimization).unwrap_err(),
        Error::AstError(AstError::UnsupportedUnaryOperator { operator: Operator::Multiply })
    );
    assert!(Hybrid::exec("", JitOptimizationLevel::NoOptimization).is_err());
}

#[test]
fn jit_exec_ast_matches_interpreter() {
    let ast = build_ast("( 1 + 2 ) * 3.5").unwrap();
    assert_eq!(
        Jit::exec_ast(&ast, JitOptimizationLevel::Standard).unwrap(),
        Interpreter::exec_ast(&ast).unwrap()
    );
    assert_eq!(
        Hybrid::exec_ast(ast, JitOptimizationLevel::Standard).unwrap(),
        Interpreter::exec("( 1 + 2 ) * 3.5").unwrap()
    );
}

#[test]
fn jit_unsupported_unary_operator() {
    // the builder never produces such a tree; a hand-built one is reported
    let bad = Ast::UnaryOperator {
        operator: Operator::Divide,
        child: Box::new(Ast::Number(2.0f64.to_bits())),
    };
    assert_eq!(
        Jit::exec_ast(&bad, JitOptimizationLevel::NoOptimization).unwrap_err(),
        Error::JitError(JitError::UnsupportedUnaryOperator { operator: Operator::Divide })
    );
}

#[test]
fn default_optimization_level() {
    assert_eq!(JitOptimizationLevel::default(), JitOptimizationLevel::Standard);
}
