//! The compiling evaluator: the tree is translated once into a flat
//! sequence of stack-machine instructions, which is then run.
//!
//! The translation is proved to preserve `spec_eval` exactly: running the
//! compiled code on any stack pushes the tree's value onto it.  So this
//! evaluator returns the same bit pattern as the tree-walking interpreter
//! on every tree both accept.

use crate::ast::{spec_build_ast, Ast, AstBuilder};
use crate::errors::Error;
use crate::interpret::spec_eval;
use crate::number::{
    add_bits, add_bits_exec, div_bits, div_bits_exec, mul_bits, mul_bits_exec, neg_bits,
    neg_bits_exec, sub_bits, sub_bits_exec,
};
use crate::parser::Operator;
use vstd::prelude::*;

verus! {

/// Hint forwarded by callers; the translation here has a single code shape,
/// so every level compiles the same way.
#[derive(Copy, Clone, Debug, PartialEq, Eq, Structural)]
pub enum JitOptimizationLevel {
    NoOptimization,
    Less,
    Standard,
    Aggressive,
}

impl Default for JitOptimizationLevel {
    fn default() -> (r: Self)
        ensures
            r == JitOptimizationLevel::Standard,
    {
        JitOptimizationLevel::Standard
    }
}

/// A tree shape the compiling backend cannot translate.
#[derive(Copy, Clone, Debug, PartialEq, Eq, Structural)]
pub enum JitError {
    UnsupportedUnaryOperator { operator: Operator },
}

pub struct Jit {}

/// One stack-machine instruction.  A binary instruction pops its right
/// operand, then its left, and pushes the combination.
#[derive(Copy, Clone, Debug, PartialEq, Eq, Structural)]
enum Instr {
    Push(u64),
    Add,
    Sub,
    Mul,
    Div,
    Neg,
}

/// The code for a tree: its value left on the stack, children before
/// parents, left before right.  An operator other than a sign in unary
/// position cannot be translated and is reported.
spec fn spec_compile(t: Ast) -> Result<Seq<Instr>, Operator>
    decreases t,
{
    match t {
        Ast::Number(n) => Ok(seq![Instr::Push(n)]),
        Ast::UnaryOperator { operator, child } => match spec_compile(*child) {
            Ok(c) => if operator == Operator::Plus {
                Ok(c)
            } else if operator == Operator::Minus {
                Ok(c + seq![Instr::Neg])
            } else {
                Err(operator)
            },
            Err(e) => Err(e),
        },
        Ast::BinaryOperator { operator, left, right } => match spec_compile(*left) {
            Ok(cl) => match spec_compile(*right) {
                Ok(cr) => Ok(
                    cl + cr + seq![
                        match operator {
                            Operator::Plus => Instr::Add,
                            Operator::Minus => Instr::Sub,
                            Operator::Multiply => Instr::Mul,
                            Operator::Divide => Instr::Div,
                        },
                    ],
                ),
                Err(e) => Err(e),
            },
            Err(e) => Err(e),
        },
        Ast::Parenthesis { child } => spec_compile(*child),
    }
}

/// Effect of one instruction on the stack; `None` on underflow.
spec fn spec_step(i: Instr, st: Seq<u64>) -> Option<Seq<u64>> {
    match i {
        Instr::Push(n) => Some(st.push(n)),
        Instr::Neg => if st.len() >= 1 {
            Some(st.drop_last().push(neg_bits(st.last())))
        } else {
            None
        },
        Instr::Add => if st.len() >= 2 {
            Some(st.drop_last().drop_last().push(add_bits(st[st.len() - 2], st[st.len() - 1])))
        } else {
            None
        },
        Instr::Sub => if st.len() >= 2 {
            Some(st.drop_last().drop_last().push(sub_bits(st[st.len() - 2], st[st.len() - 1])))
        } else {
            None
        },
        Instr::Mul => if st.len() >= 2 {
            Some(st.drop_last().drop_last().push(mul_bits(st[st.len() - 2], st[st.len() - 1])))
        } else {
            None
        },
        Instr::Div => if st.len() >= 2 {
            Some(st.drop_last().drop_last().push(div_bits(st[st.len() - 2], st[st.len() - 1])))
        } else {
            None
        },
    }
}

/// The stack after running `code` on `st`, instruction by instruction.
spec fn spec_run(code: Seq<Instr>, st: Seq<u64>) -> Option<Seq<u64>>
    decreases code.len(),
{
    if code.len() == 0 {
        Some(st)
    } else {
        match spec_step(code[0], st) {
            Some(st2) => spec_run(code.drop_first(), st2),
            None => None,
        }
    }
}

proof fn lemma_run_append(c1: Seq<Instr>, c2: Seq<Instr>, st: Seq<u64>)
    ensures
        spec_run(c1 + c2, st) == (match spec_run(c1, st) {
            Some(m) => spec_run(c2, m),
            None => None,
        }),
    decreases c1.len(),
{
    if c1.len() == 0 {
        assert(c1 + c2 =~= c2);
    } else {
        assert((c1 + c2)[0] == c1[0]);
        match spec_step(c1[0], st) {
            Some(st2) => {
                assert((c1 + c2).drop_first() =~= c1.drop_first() + c2);
                lemma_run_append(c1.drop_first(), c2, st2);
            },
            None => {
                assert(spec_run(c1 + c2, st) is None);
            },
        }
    }
}

/// Compilation fails exactly where evaluation fails, on the same operator.
proof fn lemma_compile_eval(t: Ast)
    ensures
        spec_compile(t) is Ok <==> spec_eval(t) is Ok,
        spec_compile(t) is Err ==> spec_compile(t) == Err::<Seq<Instr>, Operator>(
            spec_eval(t)->Err_0,
        ),
    decreases t,
{
    match t {
        Ast::Number(_) => {},
        Ast::UnaryOperator { operator, child } => {
            lemma_compile_eval(*child);
        },
        Ast::BinaryOperator { operator, left, right } => {
            lemma_compile_eval(*left);
            lemma_compile_eval(*right);
        },
        Ast::Parenthesis { child } => {
            lemma_compile_eval(*child);
        },
    }
}

/// Compiled code computes the tree's value: running it on any stack pushes
/// exactly `spec_eval`'s result.
proof fn lemma_compile_correct(t: Ast, st: Seq<u64>)
    requires
        spec_compile(t) is Ok,
    ensures
        spec_eval(t) is Ok,
        spec_run(spec_compile(t)->Ok_0, st) == Some(st.push(spec_eval(t)->Ok_0)),
    decreases t,
{
    reveal_with_fuel(spec_run, 3);
    lemma_compile_eval(t);
    match t {
        Ast::Number(n) => {
            let code = seq![Instr::Push(n)];
            assert(code.drop_first() =~= Seq::<Instr>::empty());
            assert(spec_run(code, st) == Some(st.push(n)));
        },
        Ast::UnaryOperator { operator, child } => {
            let c = spec_compile(*child)->Ok_0;
            lemma_compile_correct(*child, st);
            let v = spec_eval(*child)->Ok_0;
            if operator == Operator::Minus {
                lemma_run_append(c, seq![Instr::Neg], st);
                let st2 = st.push(v);
                assert(seq![Instr::Neg].drop_first() =~= Seq::<Instr>::empty());
                assert(st2.drop_last() =~= st);
                assert(st2.last() == v);
                assert(spec_run(seq![Instr::Neg], st2) == Some(st.push(neg_bits(v))));
            }
        },
        Ast::BinaryOperator { operator, left, right } => {
            let cl = spec_compile(*left)->Ok_0;
            let cr = spec_compile(*right)->Ok_0;
            let lv = spec_eval(*left)->Ok_0;
            let rv = spec_eval(*right)->Ok_0;
            let opi = match operator {
                Operator::Plus => Instr::Add,
                Operator::Minus => Instr::Sub,
                Operator::Multiply => Instr::Mul,
                Operator::Divide => Instr::Div,
            };
            lemma_compile_correct(*left, st);
            lemma_compile_correct(*right, st.push(lv));
            assert(spec_compile(t)->Ok_0 =~= cl + (cr + seq![opi]));
            lemma_run_append(cl, cr + seq![opi], st);
            lemma_run_append(cr, seq![opi], st.push(lv));
            let st2 = st.push(lv).push(rv);
            assert(st2.len() >= 2 && st2[st2.len() - 2] == lv && st2[st2.len() - 1] == rv);
            assert(st2.drop_last().drop_last() =~= st);
            assert(seq![opi].drop_first() =~= Seq::<Instr>::empty());
            assert(spec_run(seq![opi], st2) == Some(st.push(spec_eval(t)->Ok_0)));
        },
        Ast::Parenthesis { child } => {
            lemma_compile_correct(*child, st);
        },
    }
}

/// What the compiling evaluator returns for a tree.
pub open spec fn spec_jit_result(t: Ast) -> Result<u64, Error> {
    match spec_eval(t) {
        Ok(v) => Ok(v),
        Err(op) => Err(Error::JitError(JitError::UnsupportedUnaryOperator { operator: op })),
    }
}

impl Jit {
    fn compile(ast: &Ast, code: &mut Vec<Instr>) -> (r: Result<(), JitError>)
        ensures
            (match spec_compile(*ast) {
                Ok(c) => r is Ok && final(code)@ == old(code)@ + c,
                Err(op) => r == Err::<(), JitError>(
                    JitError::UnsupportedUnaryOperator { operator: op },
                ),
            }),
        decreases *ast,
    {
        match ast {
            Ast::Number(n) => {
                code.push(Instr::Push(*n));
                proof {
                    assert(code@ =~= old(code)@ + seq![Instr::Push(*n)]);
                }
                Ok(())
            },
            Ast::UnaryOperator { operator, child } => {
                match Jit::compile(child, code) {
                    Ok(()) => {},
                    Err(e) => {
                        return Err(e);
                    },
                }
                match operator {
                    Operator::Plus => Ok(()),
                    Operator::Minus => {
                        let ghost mid = code@;
                        code.push(Instr::Neg);
                        proof {
                            assert(code@ =~= old(code)@ + (spec_compile(**child)->Ok_0 + seq![
                                Instr::Neg,
                            ]));
                        }
                        Ok(())
                    },
                    op => Err(JitError::UnsupportedUnaryOperator { operator: *op }),
                }
            },
            Ast::BinaryOperator { operator, left, right } => {
                match Jit::compile(left, code) {
                    Ok(()) => {},
                    Err(e) => {
                        return Err(e);
                    },
                }
                match Jit::compile(right, code) {
                    Ok(()) => {},
                    Err(e) => {
                        return Err(e);
                    },
                }
                let opi = match operator {
                    Operator::Plus => Instr::Add,
                    Operator::Minus => Instr::Sub,
                    Operator::Multiply => Instr::Mul,
                    Operator::Divide => Instr::Div,
                };
                code.push(opi);
                proof {
                    assert(code@ =~= old(code)@ + (spec_compile(**left)->Ok_0 + spec_compile(
                        **right,
                    )->Ok_0 + seq![opi]));
                }
                Ok(())
            },
            Ast::Parenthesis { child } => Jit::compile(child, code),
        }
    }

    #[verifier::loop_isolation(false)]
    fn run(code: &Vec<Instr>) -> (r: u64)
        requires
            spec_run(code@, Seq::empty()) matches Some(st) && st.len() == 1,
        ensures
            spec_run(code@, Seq::empty()) == Some(seq![r]),
    {
        let mut stack: Vec<u64> = Vec::new();
        let mut pc: usize = 0;
        proof {
            assert(code@.skip(0int) =~= code@);
        }
        while pc < code.len()
            invariant
                pc <= code@.len(),
                spec_run(code@.skip(pc as int), stack@) == spec_run(code@, Seq::empty()),
            decreases code@.len() - pc,
        {
            let ghost rest0 = code@.skip(pc as int);
            let ghost st0 = stack@;
            proof {
                assert(rest0[0] == code@[pc as int]);
                assert(rest0.drop_first() =~= code@.skip(pc as int + 1));
                // the run of the whole code succeeds, so this step does too
                assert(spec_step(rest0[0], st0) is Some);
            }
            let i = code[pc];
            match i {
                Instr::Push(n) => {
                    stack.push(n);
                },
                Instr::Neg => {
                    let a = stack.remove(stack.len() - 1);
                    stack.push(neg_bits_exec(a));
                    proof {
                        assert(st0.remove(st0.len() - 1) =~= st0.drop_last());
                        assert(stack@ =~= st0.drop_last().push(neg_bits(st0.last())));
                    }
                },
                Instr::Add => {
                    let b = stack.remove(stack.len() - 1);
                    let a = stack.remove(stack.len() - 1);
                    stack.push(add_bits_exec(a, b));
                    proof {
                        assert(stack@ =~= st0.drop_last().drop_last().push(
                            add_bits(st0[st0.len() - 2], st0[st0.len() - 1]),
                        ));
                    }
                },
                Instr::Sub => {
                    let b = stack.remove(stack.len() - 1);
                    let a = stack.remove(stack.len() - 1);
                    stack.push(sub_bits_exec(a, b));
                    proof {
                        assert(stack@ =~= st0.drop_last().drop_last().push(
                            sub_bits(st0[st0.len() - 2], st0[st0.len() - 1]),
                        ));
                    }
                },
                Instr::Mul => {
                    let b = stack.remove(stack.len() - 1);
                    let a = stack.remove(stack.len() - 1);
                    stack.push(mul_bits_exec(a, b));
                    proof {
                        assert(stack@ =~= st0.drop_last().drop_last().push(
                            mul_bits(st0[st0.len() - 2], st0[st0.len() - 1]),
                        ));
                    }
                },
                Instr::Div => {
                    let b = stack.remove(stack.len() - 1);
                    let a = stack.remove(stack.len() - 1);
                    stack.push(div_bits_exec(a, b));
                    proof {
                        assert(stack@ =~= st0.drop_last().drop_last().push(
                            div_bits(st0[st0.len() - 2], st0[st0.len() - 1]),
                        ));
                    }
                },
            }
            pc = pc + 1;
        }
        proof {
            assert(code@.skip(pc as int) =~= Seq::<Instr>::empty());
        }
        let r = stack[0];
        proof {
            assert(seq![r] =~= stack@);
        }
        r
    }

    /// Compile a tree and run the result: exactly the value `spec_eval`
    /// gives the tree, or the unsupported-operator failure.
    #[allow(unused_variables)]
    pub fn exec_ast(ast: &Ast, optimization_level: JitOptimizationLevel) -> (r: Result<u64, Error>)
        ensures
            r == spec_jit_result(*ast),
    {
        let mut code: Vec<Instr> = Vec::new();
        match Jit::compile(ast, &mut code) {
            Err(e) => {
                proof {
                    lemma_compile_eval(*ast);
                }
                Err(Error::JitError(e))
            },
            Ok(()) => {
                proof {
                    lemma_compile_eval(*ast);
                    lemma_compile_correct(*ast, Seq::empty());
                    assert(code@ =~= spec_compile(*ast)->Ok_0);
                    assert(Seq::<u64>::empty().push(spec_eval(*ast)->Ok_0) =~= seq![
                        spec_eval(*ast)->Ok_0,
                    ]);
                }
                let v = Jit::run(&code);
                proof {
                    assert(seq![v] == seq![spec_eval(*ast)->Ok_0]);
                    assert(seq![v][0] == seq![spec_eval(*ast)->Ok_0][0]);
                }
                Ok(v)
            },
        }
    }

    /// Build the tree for the text and evaluate it with the compiling
    /// evaluator.
    pub fn exec(s: &str, optimization_level: JitOptimizationLevel) -> (r: Result<u64, Error>)
        ensures
            (match spec_build_ast(s@) {
                Ok(t) => r == spec_jit_result(t),
                Err(e) => r == Err::<u64, Error>(e),
            }),
    {
        let ast = match AstBuilder::build_ast(s) {
            Ok(a) => a,
            Err(e) => {
                return Err(e);
            },
        };
        Jit::exec_ast(&ast, optimization_level)
    }
}

} // verus!
