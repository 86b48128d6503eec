//! The language's parser and AST representation.
//!
//! The main entry point to the parser is the [`parse()`] function. It takes
//! source text and tries to convert it into its AST representation. To
//! inspect a parsed program, use the [`visit::Visitor`] trait for AST
//! traversal.

pub mod ast;
pub mod grammar;
pub mod visit;

pub use self::ast::{Atom, BinaryOp, Expr, FunctionCall, Number, Op};
pub use self::grammar::ParseError;

use vstd::prelude::*;

verus! {

/// Parse a string into its AST representation: exactly the expression the
/// grammar ([`grammar::spec_parse`]) gives the text, or the error it
/// assigns.
pub fn parse(src: &str) -> (r: Result<Expr, ParseError>)
    ensures
        ({
            match (r, grammar::spec_parse(src@)) {
                (Result::Ok(e), Result::Ok(ev)) => e@ == ev,
                (Result::Err(a), Result::Err(b)) => a == b,
                _ => false,
            }
        }),
{
    grammar::parse_text(src)
}

} // verus!
