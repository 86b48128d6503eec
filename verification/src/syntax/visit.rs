//! Syntax tree traversal.
//!
//! Each method of the `Visitor` trait is a hook for the corresponding kind of
//! node. An implementation describes what one visit does to its state with
//! the `post_*` spec functions; the `walk_*()` functions perform the default
//! traversal order (depth first, left to right), and their contracts chain
//! the per-node postconditions together. A hook that wants the default
//! recursive behaviour for its substructure invokes the matching `walk_*()`
//! function.

use vstd::prelude::*;

use crate::syntax::ast::{Atom, BinaryOp, Expr, FunctionCall};

verus! {

/// A utility trait for traversing an AST.
///
/// The four `post_*` spec functions say, per implementation, how the state
/// after visiting a node relates to the state `pre` before it; each `visit_*`
/// method promises exactly its `post_*` relation.
pub trait Visitor: Sized {
    /// What visiting an `Expr` does to the visitor's state.
    spec fn post_expr(&self, pre: Self, e: Expr) -> bool;

    /// What visiting a `BinaryOp` does to the visitor's state.
    spec fn post_binary_op(&self, pre: Self, b: BinaryOp) -> bool;

    /// What visiting a `FunctionCall` does to the visitor's state.
    spec fn post_function_call(&self, pre: Self, f: FunctionCall) -> bool;

    /// What visiting an `Atom` does to the visitor's state.
    spec fn post_atom(&self, pre: Self, a: Atom) -> bool;

    /// Visit an `Expr` node.
    fn visit_expr(&mut self, e: &Expr)
        ensures
            final(self).post_expr(*old(self), *e),
    ;

    /// Visit a binary operation.
    fn visit_binary_op(&mut self, b: &BinaryOp)
        ensures
            final(self).post_binary_op(*old(self), *b),
    ;

    /// Visit a function call.
    fn visit_function_call(&mut self, f: &FunctionCall)
        ensures
            final(self).post_function_call(*old(self), *f),
    ;

    /// Visit an `Atom`.
    fn visit_atom(&mut self, a: &Atom)
        ensures
            final(self).post_atom(*old(self), *a),
    ;
}

/// The states a visitor passes through when it visits each expression of
/// `args` in order: from `pre`, each visit steps to the next state, ending in
/// `post`.
pub open spec fn visited_each<V: Visitor>(pre: V, post: V, args: Seq<Expr>) -> bool
    decreases args.len(),
{
    if args.len() == 0 {
        post == pre
    } else {
        exists|mid: V|
            #[trigger] mid.post_expr(pre, args.first()) && visited_each(
                mid,
                post,
                args.drop_first(),
            )
    }
}

/// A chain of visits over `args` followed by one more visit over `e` is a
/// chain over `args.push(e)`.
pub proof fn lemma_visited_each_snoc<V: Visitor>(pre: V, mid: V, post: V, args: Seq<Expr>, e: Expr)
    requires
        visited_each(pre, mid, args),
        post.post_expr(mid, e),
    ensures
        visited_each(pre, post, args.push(e)),
    decreases args.len(),
{
    if args.len() == 0 {
        assert(args.push(e).drop_first() =~= Seq::<Expr>::empty());
        assert(visited_each(post, post, args.push(e).drop_first()));
        assert(args.push(e).first() == e);
    } else {
        let mid1 = choose|mid1: V|
            #[trigger] mid1.post_expr(pre, args.first()) && visited_each(
                mid1,
                mid,
                args.drop_first(),
            );
        lemma_visited_each_snoc(mid1, mid, post, args.drop_first(), e);
        assert(args.push(e).drop_first() =~= args.drop_first().push(e));
        assert(args.push(e).first() == args.first());
        assert(mid1.post_expr(pre, args.push(e).first()));
    }
}

/// Continue to recursively walk an expression, calling the visitor's
/// `visit_atom()`, `visit_function_call()`, or `visit_binary_op()` method
/// depending on what type of `Expr` it is.
pub fn walk_expr<V: Visitor>(visitor: &mut V, e: &Expr)
    ensures
        match *e {
            Expr::Atom(a) => final(visitor).post_atom(*old(visitor), a),
            Expr::FunctionCall(f) => final(visitor).post_function_call(*old(visitor), f),
            Expr::BinaryOp(b) => final(visitor).post_binary_op(*old(visitor), *b),
        },
{
    match e {
        Expr::Atom(a) => visitor.visit_atom(a),
        Expr::FunctionCall(f) => visitor.visit_function_call(f),
        Expr::BinaryOp(b) => visitor.visit_binary_op(b),
    }
}

/// Recursively visit a binary operation's left and right operands, in that
/// order.
pub fn walk_binary_op<V: Visitor>(visitor: &mut V, b: &BinaryOp)
    ensures
        exists|mid: V|
            #[trigger] mid.post_expr(*old(visitor), b.left) && final(visitor).post_expr(
                mid,
                b.right,
            ),
{
    visitor.visit_expr(&b.left);
    let ghost mid = *visitor;
    visitor.visit_expr(&b.right);
    assert(mid.post_expr(*old(visitor), b.left) && visitor.post_expr(mid, b.right));
}

/// Recursively visit each argument in the function call, left to right.
pub fn walk_function_call<V: Visitor>(visitor: &mut V, f: &FunctionCall)
    ensures
        visited_each(*old(visitor), *final(visitor), f.arguments@),
{
    let ghost pre = *visitor;
    let n = f.arguments.len();
    let mut i: usize = 0;
    while i < n
        invariant
            n == f.arguments@.len(),
            i <= n,
            visited_each(pre, *visitor, f.arguments@.take(i as int)),
        decreases n - i,
    {
        let ghost mid = *visitor;
        visitor.visit_expr(&f.arguments[i]);
        proof {
            lemma_visited_each_snoc(
                pre,
                mid,
                *visitor,
                f.arguments@.take(i as int),
                f.arguments@[i as int],
            );
            assert(f.arguments@.take(i as int).push(f.arguments@[i as int]) =~= f.arguments@.take(
                i as int + 1,
            ));
        }
        i = i + 1;
    }
    proof {
        assert(f.arguments@.take(n as int) =~= f.arguments@);
    }
}

} // verus!
