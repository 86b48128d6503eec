//! A small expression compiler.
//!
//! The pipeline has two phases:
//!
//! 1. parse source text into an AST (abstract syntax tree),
//! 2. lower the AST into a straight-line instruction sequence that a
//!    backend (an interpreter or a JIT) can turn into an invocable routine
//!    returning one floating-point value.
//!
//! Both phases carry full functional contracts: the parser is pinned to a
//! specification-level grammar and the code generator is proved to emit a
//! unit that evaluates to exactly the value of the source expression, under
//! every interpretation of the numeric literals and arithmetic operators.

pub mod syntax;
pub mod trans;
