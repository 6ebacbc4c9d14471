//! The race coordinator: both evaluators are started concurrently against
//! the same shared, immutable tree, and the first finished result wins.
//!
//! The loser keeps running to completion and its result is dropped; no
//! cancellation is sent.  Which engine answers is wall-clock-dependent, but
//! both are proved against the same `spec_eval`, so on every tree the
//! builder can produce the value returned is the same either way — see
//! `lemma_evaluators_agree`.

use crate::ast::{
    lemma_parse_tokens_shape, spec_build_ast, spec_parse_tokens, unary_ok, Ast, AstBuilder,
    AstError,
};
use crate::errors::Error;
use crate::interpret::{lemma_eval_ok_iff_unary_ok, spec_eval, spec_interp_result, Interpreter};
use crate::jit::{spec_jit_result, Jit, JitOptimizationLevel};
use crate::parser::Token;
use vstd::prelude::*;

verus! {

pub struct Hybrid {}

/// Both evaluation paths yield the interpreter's result on any tree whose
/// unary operators are all signs — in particular on every tree the
/// expression builder yields.  So the race's winner never changes the value.
pub proof fn lemma_evaluators_agree(t: Ast)
    requires
        unary_ok(t),
    ensures
        spec_jit_result(t) == spec_interp_result(t),
        spec_interp_result(t) == Ok::<u64, Error>(spec_eval(t)->Ok_0),
{
    lemma_eval_ok_iff_unary_ok(t);
}

/// On every syntactically valid input the race's outcome is determined: the
/// tree built from it evaluates to a value, and both evaluators — hence the
/// hybrid engine, whichever of them answers — return exactly that value,
/// bit for bit the interpreter's result.
pub proof fn lemma_race_value_independent(ts: Seq<Token>, t: Ast)
    requires
        spec_parse_tokens(ts) == Ok::<Ast, AstError>(t),
    ensures
        spec_interp_result(t) == spec_jit_result(t),
        spec_interp_result(t) == Ok::<u64, Error>(spec_eval(t)->Ok_0),
{
    lemma_parse_tokens_shape(ts);
    lemma_evaluators_agree(t);
}

/// Relies on crossbeam's scoped threads (`crossbeam::thread::scope`) and
/// bounded channel: each worker calls one verified evaluator on the shared
/// tree and sends that result once into a channel of capacity two; `recv`
/// returns the first value sent, which is therefore one of the two
/// evaluators' results.  Should the channel or the scope fail, the
/// interpreter is called directly, keeping the same guarantee.
#[verifier::external_body]
fn race_eval(ast: &Ast, optimization_level: JitOptimizationLevel) -> (r: Result<u64, Error>)
    ensures
        r == spec_interp_result(*ast) || r == spec_jit_result(*ast),
{
    crossbeam::thread::scope(|s| {
        let (sender, receiver) = crossbeam::channel::bounded(2);
        let jit_sender = sender.clone();
        s.spawn(move |_| {
            sender.send(Interpreter::exec_ast(ast)).ok();
        });
        s.spawn(move |_| {
            jit_sender.send(Jit::exec_ast(ast, optimization_level)).ok();
        });
        receiver.recv().unwrap_or_else(|_| Interpreter::exec_ast(ast))
    }).unwrap_or_else(|_| Interpreter::exec_ast(ast))
}

impl Hybrid {
    /// Build the tree for the text and race both evaluators on it.
    pub fn exec(s: &str, optimization_level: JitOptimizationLevel) -> (r: Result<u64, Error>)
        ensures
            (match spec_build_ast(s@) {
                Ok(t) => (r == spec_interp_result(t) || r == spec_jit_result(t)) && (spec_eval(t)
                    is Ok ==> r == Ok::<u64, Error>(spec_eval(t)->Ok_0)),
                Err(e) => r == Err::<u64, Error>(e),
            }),
    {
        let ast = match AstBuilder::build_ast(s) {
            Ok(a) => a,
            Err(e) => {
                return Err(e);
            },
        };
        Hybrid::exec_ast(ast, optimization_level)
    }

    /// Race both evaluators on a tree.  Whichever engine answers first, a
    /// tree that evaluates to a value yields exactly that value — the same
    /// bits a direct call to the interpreter returns.
    pub fn exec_ast(ast: Ast, optimization_level: JitOptimizationLevel) -> (r: Result<u64, Error>)
        ensures
            r == spec_interp_result(ast) || r == spec_jit_result(ast),
            spec_eval(ast) is Ok ==> r == Ok::<u64, Error>(spec_eval(ast)->Ok_0) && r
                == spec_interp_result(ast),
    {
        race_eval(&ast, optimization_level)
    }
}

} // verus!
