//! An arithmetic expression engine: text is tokenized, parsed with an
//! operator-precedence algorithm into an expression tree, and evaluated by
//! two equivalent engines — a tree-walking interpreter and a compiling
//! evaluator — raced against each other, the first finished result winning.

pub mod ast;
pub mod errors;
pub mod hybrid;
pub mod interpret;
pub mod jit;
pub mod number;
pub mod parser;
