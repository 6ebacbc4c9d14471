//! The tree-walking evaluator: recursively reduces an expression tree to
//! the bit pattern of its numeric value.
//!
//! `spec_eval` is the single mathematical meaning of a tree; the compiling
//! evaluator is proved against the same function, which is what makes the
//! race's winner irrelevant to the value produced.

use crate::ast::{spec_build_ast, unary_ok, Ast, AstBuilder};
use crate::errors::Error;
use crate::number::{
    add_bits, add_bits_exec, div_bits, div_bits_exec, mul_bits, mul_bits_exec, neg_bits,
    neg_bits_exec, sub_bits, sub_bits_exec,
};
use crate::parser::Operator;
use vstd::prelude::*;

verus! {

/// An operator other than plus or minus in unary position: defensive, the
/// expression builder never produces such a tree.
#[derive(Copy, Clone, Debug, PartialEq, Eq, Structural)]
pub enum InterpreterError {
    InvalidUnaryOperator { operator: Operator },
}

pub struct Interpreter {}

/// The value of a tree: the bit pattern it evaluates to, or the operator
/// found in an invalid unary position.  Children are reduced before their
/// parent, left before right; division by zero follows IEEE-754 and is no
/// error.
pub open spec fn spec_eval(t: Ast) -> Result<u64, Operator>
    decreases t,
{
    match t {
        Ast::Number(n) => Ok(n),
        Ast::UnaryOperator { operator, child } => match spec_eval(*child) {
            Ok(v) => if operator == Operator::Plus {
                Ok(v)
            } else if operator == Operator::Minus {
                Ok(neg_bits(v))
            } else {
                Err(operator)
            },
            Err(e) => Err(e),
        },
        Ast::BinaryOperator { operator, left, right } => match spec_eval(*left) {
            Ok(l) => match spec_eval(*right) {
                Ok(r) => Ok(
                    match operator {
                        Operator::Plus => add_bits(l, r),
                        Operator::Minus => sub_bits(l, r),
                        Operator::Multiply => mul_bits(l, r),
                        Operator::Divide => div_bits(l, r),
                    },
                ),
                Err(e) => Err(e),
            },
            Err(e) => Err(e),
        },
        Ast::Parenthesis { child } => spec_eval(*child),
    }
}

/// What the interpreter returns for a tree.
pub open spec fn spec_interp_result(t: Ast) -> Result<u64, Error> {
    match spec_eval(t) {
        Ok(v) => Ok(v),
        Err(op) => Err(
            Error::InterpreterError(InterpreterError::InvalidUnaryOperator { operator: op }),
        ),
    }
}

/// A tree evaluates to a value exactly when every unary operator in it is a
/// sign; otherwise evaluation reports an offending operator.
pub proof fn lemma_eval_ok_iff_unary_ok(t: Ast)
    ensures
        spec_eval(t) is Ok <==> unary_ok(t),
    decreases t,
{
    match t {
        Ast::Number(_) => {},
        Ast::UnaryOperator { operator, child } => {
            lemma_eval_ok_iff_unary_ok(*child);
        },
        Ast::BinaryOperator { operator, left, right } => {
            lemma_eval_ok_iff_unary_ok(*left);
            lemma_eval_ok_iff_unary_ok(*right);
        },
        Ast::Parenthesis { child } => {
            lemma_eval_ok_iff_unary_ok(*child);
        },
    }
}

impl Interpreter {
    /// Evaluate a tree: exactly the value `spec_eval` gives it.
    pub fn exec_ast(ast: &Ast) -> (r: Result<u64, Error>)
        ensures
            r == spec_interp_result(*ast),
        decreases *ast,
    {
        match ast {
            Ast::Number(n) => Ok(*n),
            Ast::UnaryOperator { operator, child } => {
                let result = match Interpreter::exec_ast(child) {
                    Ok(v) => v,
                    Err(e) => {
                        return Err(e);
                    },
                };
                match operator {
                    Operator::Plus => Ok(result),
                    Operator::Minus => Ok(neg_bits_exec(result)),
                    op => Err(
                        Error::InterpreterError(
                            InterpreterError::InvalidUnaryOperator { operator: *op },
                        ),
                    ),
                }
            },
            Ast::BinaryOperator { operator, left, right } => {
                let l = match Interpreter::exec_ast(left) {
                    Ok(v) => v,
                    Err(e) => {
                        return Err(e);
                    },
                };
                let r = match Interpreter::exec_ast(right) {
                    Ok(v) => v,
                    Err(e) => {
                        return Err(e);
                    },
                };
                Ok(
                    match operator {
                        Operator::Plus => add_bits_exec(l, r),
                        Operator::Minus => sub_bits_exec(l, r),
                        Operator::Multiply => mul_bits_exec(l, r),
                        Operator::Divide => div_bits_exec(l, r),
                    },
                )
            },
            Ast::Parenthesis { child } => Interpreter::exec_ast(child),
        }
    }

    /// Build the tree for the text and evaluate it.
    pub fn exec(s: &str) -> (r: Result<u64, Error>)
        ensures
            (match spec_build_ast(s@) {
                Ok(t) => r == spec_interp_result(t),
                Err(e) => r == Err::<u64, Error>(e),
            }),
    {
        let ast = match AstBuilder::build_ast(s) {
            Ok(a) => a,
            Err(e) => {
                return Err(e);
            },
        };
        Interpreter::exec_ast(&ast)
    }
}

} // verus!
