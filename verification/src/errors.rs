//! The single error type of the engine: each stage's failures nested as a
//! variant payload.  Every error is terminal for one evaluation request and
//! is returned as a value; none is retried and none aborts the process.

use crate::ast::AstError;
use crate::interpret::InterpreterError;
use crate::jit::JitError;
use crate::parser::ParseError;
use vstd::prelude::*;

verus! {

#[derive(Copy, Clone, Debug, PartialEq, Eq, Structural)]
pub enum Error {
    ParseError(ParseError),
    AstError(AstError),
    InterpreterError(InterpreterError),
    JitError(JitError),
}

} // verus!
