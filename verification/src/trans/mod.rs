//! Translate a valid `calc` expression into a backend-ready computation
//! unit.

pub mod compiler;

pub use self::compiler::{CodegenError, CompiledUnit, Compiler, Instr};

use vstd::prelude::*;

use crate::syntax::ast::Expr;
use crate::trans::compiler::{result_matches, spec_compile};

verus! {

/// Compile `ast` with a fresh engine into one entry-contract unit: a named,
/// zero-parameter routine returning the expression's value.
pub fn translate(ast: &Expr) -> (r: Result<CompiledUnit, CodegenError>)
    ensures
        result_matches(r, spec_compile(ast@)),
{
    let mut c = Compiler::new();
    c.compile(ast)
}

} // verus!
