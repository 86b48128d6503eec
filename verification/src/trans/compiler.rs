//! Lower a `calc` expression into a straight-line instruction sequence.
//!
//! The engine walks the tree once, depth first and left to right, and emits
//! one instruction per node in post-order, tracking intermediate results on
//! an explicit operand stack of instruction handles. The whole engine is
//! specified by the `step_*` functions: a deterministic machine over the
//! ghost state [`MachineV`]. Soundness — the emitted unit evaluates to
//! exactly the value of the source expression under every interpretation of
//! literals and operators — is proved in [`lemma_step_expr_sound`] and
//! packaged in [`theorem_compile_sound`].

use vstd::prelude::*;

use crate::syntax::ast::{Atom, AtomV, BinaryOp, BinaryOpV, Expr, ExprV, FunctionCall,
    FunctionCallV, Number, Op};
use crate::syntax::visit::Visitor;

verus! {

/// One instruction of a compiled unit. Instructions form a straight-line
/// sequence; each produces one value, named by its index (its handle), and
/// an arithmetic instruction names its two operands by their handles.
#[derive(Debug, Clone, Copy, PartialEq, Eq, Structural)]
pub enum Instr {
    /// Produce the value of a numeric literal.
    Const(Number),
    /// Apply an operation to the values of two earlier instructions,
    /// left operand first.
    Arith(Op, usize, usize),
}

/// A finished computation unit: a named, zero-parameter routine whose body is
/// the instruction sequence and whose single return value is the instruction
/// named by `ret`.
#[derive(Debug, Clone, PartialEq)]
pub struct CompiledUnit {
    /// The unit's entry symbol.
    pub name: String,
    /// The straight-line body.
    pub instrs: Vec<Instr>,
    /// Handle of the instruction whose value the unit returns.
    pub ret: usize,
}

/// Mathematical view of a [`CompiledUnit`].
#[verifier::ext_equal]
pub struct UnitV {
    pub name: Seq<char>,
    pub instrs: Seq<Instr>,
    pub ret: usize,
}

impl View for CompiledUnit {
    type V = UnitV;

    open spec fn view(&self) -> UnitV {
        UnitV { name: self.name@, instrs: self.instrs@, ret: self.ret }
    }
}

/// Why a compilation failed.
#[derive(Debug, Clone, PartialEq)]
pub enum CodegenError {
    /// Traversal reached an identifier and no resolution strategy exists.
    UnboundIdentifier(String),
    /// Traversal reached a construct this engine deliberately does not
    /// implement (a function call without a configured resolver); the payload
    /// names the construct.
    UnsupportedConstruct(String),
    /// The operand stack did not hold exactly the values the traversal
    /// discipline owes. This is an engine defect, never caused by input;
    /// [`theorem_no_invariant_violation`] proves it is never returned.
    EngineInvariantViolation,
}

/// Mathematical view of a [`CodegenError`].
pub enum CodegenErrorV {
    UnboundIdentifier(Seq<char>),
    UnsupportedConstruct(Seq<char>),
    EngineInvariantViolation,
}

pub open spec fn view_error(e: CodegenError) -> CodegenErrorV {
    match e {
        CodegenError::UnboundIdentifier(s) => CodegenErrorV::UnboundIdentifier(s@),
        CodegenError::UnsupportedConstruct(s) => CodegenErrorV::UnsupportedConstruct(s@),
        CodegenError::EngineInvariantViolation => CodegenErrorV::EngineInvariantViolation,
    }
}

impl View for CodegenError {
    type V = CodegenErrorV;

    open spec fn view(&self) -> CodegenErrorV {
        view_error(*self)
    }
}

pub open spec fn view_error_opt(e: Option<CodegenError>) -> Option<CodegenErrorV> {
    match e {
        Option::None => Option::None,
        Option::Some(err) => Option::Some(view_error(err)),
    }
}

/// The engine's state: the instructions emitted so far, the operand stack of
/// handles into them, and the first failure met, if any.
#[verifier::ext_equal]
pub struct MachineV {
    pub instrs: Seq<Instr>,
    pub stack: Seq<usize>,
    pub error: Option<CodegenErrorV>,
}

/// The state a fresh engine starts from.
pub open spec fn fresh_machine() -> MachineV {
    MachineV { instrs: Seq::empty(), stack: Seq::empty(), error: Option::None }
}

/// Visiting an atom: a literal pushes one constant instruction's handle; an
/// identifier has no resolver here and fails.
pub open spec fn step_atom(m: MachineV, a: AtomV) -> MachineV {
    if m.error is Some {
        m
    } else {
        match a {
            AtomV::Number(n) => MachineV {
                instrs: m.instrs.push(Instr::Const(n)),
                stack: m.stack.push(m.instrs.len() as usize),
                error: Option::None,
            },
            AtomV::Ident(name) => MachineV {
                instrs: m.instrs,
                stack: m.stack,
                error: Option::Some(CodegenErrorV::UnboundIdentifier(name)),
            },
        }
    }
}

/// Visiting a function call: calling out is delegated to a resolver this
/// engine does not have, so the traversal fails at the call node.
pub open spec fn step_call(m: MachineV, f: FunctionCallV) -> MachineV {
    if m.error is Some {
        m
    } else {
        MachineV {
            instrs: m.instrs,
            stack: m.stack,
            error: Option::Some(CodegenErrorV::UnsupportedConstruct(f.name)),
        }
    }
}

/// After both operands of a binary node are compiled: pop the right operand,
/// then the left, and push the handle of one new arithmetic instruction.
pub open spec fn combine(m: MachineV, op: Op) -> MachineV {
    if m.error is Some {
        m
    } else if m.stack.len() < 2 {
        MachineV {
            instrs: m.instrs,
            stack: m.stack,
            error: Option::Some(CodegenErrorV::EngineInvariantViolation),
        }
    } else {
        let rh = m.stack[m.stack.len() - 1];
        let lh = m.stack[m.stack.len() - 2];
        MachineV {
            instrs: m.instrs.push(Instr::Arith(op, lh, rh)),
            stack: m.stack.take(m.stack.len() - 2).push(m.instrs.len() as usize),
            error: Option::None,
        }
    }
}

/// Visiting a binary node: compile the left operand fully, then the right,
/// then combine the two residual handles.
pub open spec fn step_binary(m: MachineV, b: BinaryOpV) -> MachineV
    decreases b, 0int,
{
    combine(step_expr(step_expr(m, b.left), b.right), b.op)
}

/// One full traversal step over an expression: the complete effect of the
/// engine visiting `e` from state `m`.
pub open spec fn step_expr(m: MachineV, e: ExprV) -> MachineV
    decreases e, 1int,
{
    match e {
        ExprV::Atom(a) => step_atom(m, a),
        ExprV::FunctionCall(f) => step_call(m, f),
        ExprV::BinaryOp(b) => step_binary(m, *b),
    }
}

/// The first node, in traversal order, at which compilation must fail:
/// `None` when the tree compiles.
pub open spec fn first_blocker(e: ExprV) -> Option<CodegenErrorV>
    decreases e,
{
    match e {
        ExprV::Atom(AtomV::Number(_)) => Option::None,
        ExprV::Atom(AtomV::Ident(name)) => Option::Some(CodegenErrorV::UnboundIdentifier(name)),
        ExprV::FunctionCall(f) => Option::Some(CodegenErrorV::UnsupportedConstruct(f.name)),
        ExprV::BinaryOp(b) => if first_blocker(b.left) is Some {
            first_blocker(b.left)
        } else {
            first_blocker(b.right)
        },
    }
}

/// The fixed entry symbol every compiled unit is named with.
pub open spec fn entry_name() -> Seq<char> {
    "calc_main"@
}

/// What compiling `e` into a unit named `name` must produce.
pub open spec fn spec_compile_unit(e: ExprV, name: Seq<char>) -> Result<UnitV, CodegenErrorV> {
    let m = step_expr(fresh_machine(), e);
    match m.error {
        Option::Some(err) => Result::Err(err),
        Option::None => if m.stack.len() != 1 {
            Result::Err(CodegenErrorV::EngineInvariantViolation)
        } else {
            Result::Ok(UnitV { name: name, instrs: m.instrs, ret: m.stack[0] })
        },
    }
}

/// What compiling `e` must produce: a unit named by the entry contract.
pub open spec fn spec_compile(e: ExprV) -> Result<UnitV, CodegenErrorV> {
    spec_compile_unit(e, entry_name())
}

/// An executable result agrees with a specification-level one.
pub open spec fn result_matches(
    r: Result<CompiledUnit, CodegenError>,
    s: Result<UnitV, CodegenErrorV>,
) -> bool {
    match (r, s) {
        (Result::Ok(u), Result::Ok(su)) => u@ == su,
        (Result::Err(e), Result::Err(se)) => e@ == se,
        _ => false,
    }
}

// ---------------------------------------------------------------------------
// Evaluation semantics
// ---------------------------------------------------------------------------

/// The value of an expression under an interpretation: `num` gives each
/// literal a value, `op` gives each operator a meaning. Identifiers and
/// function calls have no value in this core, so any tree holding one has no
/// value.
pub open spec fn eval_expr<T>(
    e: ExprV,
    num: spec_fn(Number) -> T,
    op: spec_fn(Op, T, T) -> T,
) -> Option<T>
    decreases e,
{
    match e {
        ExprV::Atom(AtomV::Number(n)) => Option::Some(num(n)),
        ExprV::Atom(AtomV::Ident(_)) => Option::None,
        ExprV::FunctionCall(_) => Option::None,
        ExprV::BinaryOp(b) => {
            let l = eval_expr(b.left, num, op);
            let r = eval_expr(b.right, num, op);
            if l is Some && r is Some {
                Option::Some(op(b.op, l.unwrap(), r.unwrap()))
            } else {
                Option::None
            }
        },
    }
}

/// The value of instruction `i` of a straight-line body, under an
/// interpretation; `None` on a malformed body (an operand handle that does
/// not point strictly backwards).
pub open spec fn eval_at<T>(
    instrs: Seq<Instr>,
    i: int,
    num: spec_fn(Number) -> T,
    op: spec_fn(Op, T, T) -> T,
) -> Option<T>
    decreases i,
{
    if 0 <= i < instrs.len() {
        match instrs[i] {
            Instr::Const(n) => Option::Some(num(n)),
            Instr::Arith(o, lh, rh) => if lh < i && rh < i {
                let l = eval_at(instrs, lh as int, num, op);
                let r = eval_at(instrs, rh as int, num, op);
                if l is Some && r is Some {
                    Option::Some(op(o, l.unwrap(), r.unwrap()))
                } else {
                    Option::None
                }
            } else {
                Option::None
            },
        }
    } else {
        Option::None
    }
}

/// The value a unit returns when invoked, under an interpretation.
pub open spec fn eval_unit<T>(
    u: UnitV,
    num: spec_fn(Number) -> T,
    op: spec_fn(Op, T, T) -> T,
) -> Option<T> {
    eval_at(u.instrs, u.ret as int, num, op)
}

/// Every arithmetic instruction's operand handles point strictly backwards.
pub open spec fn wf_instrs(instrs: Seq<Instr>) -> bool {
    forall|k: int|
        0 <= k < instrs.len() ==> ((#[trigger] instrs[k]) matches Instr::Arith(o, lh, rh) ==> lh
            < k && rh < k)
}

/// A well-formed unit: a well-formed body whose return handle is in range.
pub open spec fn wf_unit(u: UnitV) -> bool {
    wf_instrs(u.instrs) && u.ret < u.instrs.len()
}

/// Every handle on the operand stack points into the emitted instructions.
pub open spec fn stack_in_range(m: MachineV) -> bool {
    forall|j: int| 0 <= j < m.stack.len() ==> (#[trigger] m.stack[j]) < m.instrs.len()
}

// ---------------------------------------------------------------------------
// Soundness
// ---------------------------------------------------------------------------

/// The number of nodes of an expression: a bound on how many instructions
/// compiling it can emit.
pub open spec fn expr_size(e: ExprV) -> nat
    decreases e,
{
    match e {
        ExprV::Atom(_) => 1,
        ExprV::FunctionCall(_) => 1,
        ExprV::BinaryOp(b) => 1 + expr_size(b.left) + expr_size(b.right),
    }
}

/// A failed machine is stuck: traversal from an error state changes nothing.
pub proof fn lemma_step_expr_stuck(m: MachineV, e: ExprV)
    requires
        m.error is Some,
    ensures
        step_expr(m, e) == m,
    decreases e,
{
    match e {
        ExprV::BinaryOp(b) => {
            lemma_step_expr_stuck(m, b.left);
            lemma_step_expr_stuck(m, b.right);
        },
        _ => {},
    }
}

/// Error behaviour and stack discipline of one traversal step, with no bound
/// on the ghost state: visiting `e` from an error-free state either succeeds
/// and pushes exactly one handle, or fails exactly with the first blocker of
/// `e`; the engine-internal stack error can never arise.
pub proof fn lemma_step_expr_errors(m: MachineV, e: ExprV)
    requires
        m.error is None,
    ensures
        ({
            let m2 = step_expr(m, e);
            match m2.error {
                Option::None => first_blocker(e) is None && m2.stack.len() == m.stack.len() + 1,
                Option::Some(err) => first_blocker(e) == Option::Some(err) && !(err
                    is EngineInvariantViolation),
            }
        }),
    decreases e,
{
    match e {
        ExprV::BinaryOp(b) => {
            let m_l = step_expr(m, b.left);
            lemma_step_expr_errors(m, b.left);
            if m_l.error is Some {
                lemma_step_expr_stuck(m_l, b.right);
            } else {
                lemma_step_expr_errors(m_l, b.right);
            }
        },
        _ => {},
    }
}

/// Evaluation of an instruction only reads instructions at or before it, so
/// extending the body does not change it.
pub proof fn lemma_eval_extend<T>(
    s1: Seq<Instr>,
    s2: Seq<Instr>,
    i: int,
    num: spec_fn(Number) -> T,
    op: spec_fn(Op, T, T) -> T,
)
    requires
        s1.is_prefix_of(s2),
        0 <= i < s1.len(),
    ensures
        eval_at(s2, i, num, op) == eval_at(s1, i, num, op),
    decreases i,
{
    assert(s1[i] == s2.subrange(0, s1.len() as int)[i]);
    assert(s1[i] == s2[i]);
    match s1[i] {
        Instr::Arith(o, lh, rh) => {
            if lh < i && rh < i {
                lemma_eval_extend(s1, s2, lh as int, num, op);
                lemma_eval_extend(s1, s2, rh as int, num, op);
            }
        },
        Instr::Const(_) => {},
    }
}

/// Prefixes compose.
pub proof fn lemma_prefix_trans(s1: Seq<Instr>, s2: Seq<Instr>, s3: Seq<Instr>)
    requires
        s1.is_prefix_of(s2),
        s2.is_prefix_of(s3),
    ensures
        s1.is_prefix_of(s3),
{
    assert forall|i: int| 0 <= i < s1.len() implies s1[i] == s3[i] by {
        assert(s1[i] == s2.subrange(0, s1.len() as int)[i]);
        assert(s2[i] == s3.subrange(0, s2.len() as int)[i]);
    }
    assert(s1 =~= s3.subrange(0, s1.len() as int));
}

/// Soundness of one traversal step, for every interpretation. From an
/// error-free, well-formed state with room for the tree's instructions,
/// visiting `e` either
/// - succeeds: it extends the body, pushes exactly one handle — the last
///   instruction's — and that instruction evaluates to exactly the value of
///   `e`; or
/// - fails, exactly with the first blocker of `e`, and only ever extends the
///   body.
pub proof fn lemma_step_expr_sound<T>(
    m: MachineV,
    e: ExprV,
    num: spec_fn(Number) -> T,
    op: spec_fn(Op, T, T) -> T,
)
    requires
        m.error is None,
        wf_instrs(m.instrs),
        stack_in_range(m),
        m.instrs.len() + expr_size(e) <= usize::MAX,
    ensures
        ({
            let m2 = step_expr(m, e);
            &&& m.instrs.is_prefix_of(m2.instrs)
            &&& m2.instrs.len() <= m.instrs.len() + expr_size(e)
            &&& wf_instrs(m2.instrs)
            &&& match m2.error {
                Option::None => {
                    &&& first_blocker(e) is None
                    &&& stack_in_range(m2)
                    &&& m2.instrs.len() > m.instrs.len()
                    &&& m2.stack == m.stack.push(((m2.instrs.len() - 1) as usize))
                    &&& eval_at(m2.instrs, m2.instrs.len() - 1, num, op) == eval_expr(e, num, op)
                    &&& eval_expr(e, num, op) is Some
                },
                Option::Some(err) => first_blocker(e) == Option::Some(err),
            }
        }),
    decreases e,
{
    let m2 = step_expr(m, e);
    match e {
        ExprV::Atom(AtomV::Number(n)) => {
            assert(m.instrs =~= m2.instrs.subrange(0, m.instrs.len() as int));
            assert(m2.instrs[m.instrs.len() as int] == Instr::Const(n));
        },
        ExprV::Atom(AtomV::Ident(_)) => {
            assert(m.instrs =~= m2.instrs.subrange(0, m.instrs.len() as int));
        },
        ExprV::FunctionCall(_) => {
            assert(m.instrs =~= m2.instrs.subrange(0, m.instrs.len() as int));
        },
        ExprV::BinaryOp(b) => {
            let bv = *b;
            let m_l = step_expr(m, bv.left);
            lemma_step_expr_sound(m, bv.left, num, op);
            match m_l.error {
                Option::Some(err) => {
                    lemma_step_expr_stuck(m_l, bv.right);
                    assert(m2 == m_l);
                },
                Option::None => {
                    let hl = (m_l.instrs.len() - 1) as usize;
                    assert(hl as int == m_l.instrs.len() - 1);
                    let m_r = step_expr(m_l, bv.right);
                    lemma_step_expr_sound(m_l, bv.right, num, op);
                    match m_r.error {
                        Option::Some(err) => {
                            assert(m2 == m_r);
                            lemma_prefix_trans(m.instrs, m_l.instrs, m_r.instrs);
                        },
                        Option::None => {
                            let hr = (m_r.instrs.len() - 1) as usize;
                            assert(hr as int == m_r.instrs.len() - 1);
                            // The combine step sees the two residual handles.
                            assert(m_r.stack == m.stack.push(hl).push(hr));
                            assert(m_r.stack.len() >= 2);
                            assert(m_r.stack[m_r.stack.len() - 1] == hr);
                            assert(m_r.stack[m_r.stack.len() - 2] == m.stack.push(hl)[
                                m.stack.len() as int]);
                            assert(m_r.stack[m_r.stack.len() - 2] == hl);
                            let new_ix = m_r.instrs.len();
                            assert(m2.instrs == m_r.instrs.push(Instr::Arith(bv.op, hl, hr)));
                            assert(m2.instrs.len() == m_r.instrs.len() + 1);
                            assert(m_r.instrs =~= m2.instrs.subrange(0, m_r.instrs.len() as int));
                            lemma_prefix_trans(m.instrs, m_l.instrs, m_r.instrs);
                            lemma_prefix_trans(m.instrs, m_r.instrs, m2.instrs);
                            // Well-formedness of the one new instruction.
                            assert(m2.instrs[new_ix as int] == Instr::Arith(bv.op, hl, hr));
                            assert(hl < new_ix && hr < new_ix);
                            assert forall|k: int| 0 <= k < m2.instrs.len() implies ((
                            #[trigger] m2.instrs[k]) matches Instr::Arith(o, lh2, rh2) ==> lh2 < k
                                && rh2 < k) by {
                                if k < m_r.instrs.len() {
                                    assert(m2.instrs[k] == m_r.instrs[k]);
                                }
                            }
                            // The residual stack: both operand handles replaced by one.
                            assert(m2.stack == m_r.stack.take(m_r.stack.len() - 2).push(
                                new_ix as usize));
                            assert(m_r.stack.take(m_r.stack.len() - 2) =~= m.stack);
                            assert((m2.instrs.len() - 1) as usize == new_ix as usize);
                            assert(m2.stack == m.stack.push(((m2.instrs.len() - 1) as usize)));
                            // Evaluation of the new instruction.
                            lemma_eval_extend(m_l.instrs, m_r.instrs, hl as int, num, op);
                            lemma_eval_extend(m_r.instrs, m2.instrs, hl as int, num, op);
                            lemma_eval_extend(m_r.instrs, m2.instrs, hr as int, num, op);
                            assert(eval_at(m2.instrs, hl as int, num, op) == eval_expr(
                                bv.left,
                                num,
                                op,
                            ));
                            assert(eval_at(m2.instrs, hr as int, num, op) == eval_expr(
                                bv.right,
                                num,
                                op,
                            ));
                            assert(eval_at(m2.instrs, new_ix as int, num, op)
                                == Option::Some(op(bv.op,
                                    eval_expr(bv.left, num, op).unwrap(),
                                    eval_expr(bv.right, num, op).unwrap())));
                        },
                    }
                },
            }
        },
    }
}

/// When compilation succeeds and when it fails — with no bound on the tree:
/// - compilation succeeds exactly when the tree holds no identifier and no
///   function call;
/// - a failure reports the first blocking node in traversal order;
/// - the engine-internal stack error is never reported: the operand stack
///   invariant (exactly one residual after a successful traversal) can never
///   fail.
pub proof fn theorem_compile_errors(e: ExprV)
    ensures
        spec_compile(e) is Ok <==> first_blocker(e) is None,
        spec_compile(e) matches Result::Err(err) ==> first_blocker(e) == Option::Some(err),
        spec_compile(e) != Result::<UnitV, CodegenErrorV>::Err(
            CodegenErrorV::EngineInvariantViolation,
        ),
{
    lemma_step_expr_errors(fresh_machine(), e);
}

/// Soundness of compilation, the heart of this library. For every expression
/// that fits the machine and every interpretation of literals and operators:
/// a produced unit is well formed and, invoked under the interpretation,
/// yields exactly the expression's value.
pub proof fn theorem_compile_sound<T>(
    e: ExprV,
    num: spec_fn(Number) -> T,
    op: spec_fn(Op, T, T) -> T,
)
    requires
        expr_size(e) <= usize::MAX,
    ensures
        ({
            let r = spec_compile(e);
            &&& (r is Ok <==> first_blocker(e) is None)
            &&& (r matches Result::Ok(u) ==> wf_unit(u) && u.ret == u.instrs.len() - 1
                && u.name == entry_name() && eval_unit(u, num, op) == eval_expr(e, num, op)
                && eval_expr(e, num, op) is Some)
            &&& (r matches Result::Err(err) ==> first_blocker(e) == Option::Some(err) && !(err
                is EngineInvariantViolation))
        }),
{
    theorem_compile_errors(e);
    lemma_step_expr_sound(fresh_machine(), e, num, op);
    let m2 = step_expr(fresh_machine(), e);
    if m2.error is None {
        assert(m2.stack =~= Seq::empty().push(((m2.instrs.len() - 1) as usize)));
        assert(m2.stack.len() == 1);
        assert(m2.stack[0] == (m2.instrs.len() - 1) as usize);
    }
}

/// The operand-stack invariant can never fail: for no input does compilation
/// report the engine-internal error.
pub proof fn theorem_no_invariant_violation(e: ExprV)
    ensures
        spec_compile(e) != Result::<UnitV, CodegenErrorV>::Err(
            CodegenErrorV::EngineInvariantViolation,
        ),
{
    theorem_compile_errors(e);
}

/// Compiling a lone numeric literal yields a one-instruction unit that,
/// invoked, yields exactly that literal's value.
pub proof fn lemma_compile_number<T>(
    n: Number,
    num: spec_fn(Number) -> T,
    op: spec_fn(Op, T, T) -> T,
)
    ensures
        ({
            let r = spec_compile(ExprV::Atom(AtomV::Number(n)));
            &&& r matches Result::Ok(u)
            &&& r->Ok_0.instrs.len() == 1
            &&& r->Ok_0.instrs[0] == Instr::Const(n)
            &&& r->Ok_0.ret == 0
            &&& eval_unit(r->Ok_0, num, op) == Option::Some(num(n))
        }),
{
    theorem_compile_sound::<T>(ExprV::Atom(AtomV::Number(n)), num, op);
    let m2 = step_expr(fresh_machine(), ExprV::Atom(AtomV::Number(n)));
    assert(m2.stack =~= Seq::empty().push(0usize));
    assert(m2.instrs =~= Seq::empty().push(Instr::Const(n)));
}

/// Compiling a binary operation over two literals yields a unit whose value
/// is the operator applied to the two literal values, left operand first:
/// operand order is preserved for the non-commutative operators.
pub proof fn lemma_compile_binary_of_literals<T>(
    a: Number,
    b: Number,
    o: Op,
    num: spec_fn(Number) -> T,
    op: spec_fn(Op, T, T) -> T,
)
    ensures
        ({
            let e = ExprV::BinaryOp(
                Box::new(
                    BinaryOpV {
                        op: o,
                        left: ExprV::Atom(AtomV::Number(a)),
                        right: ExprV::Atom(AtomV::Number(b)),
                    },
                ),
            );
            let r = spec_compile(e);
            &&& r matches Result::Ok(u)
            &&& eval_unit(r->Ok_0, num, op) == Option::Some(op(o, num(a), num(b)))
        }),
{
    let e = ExprV::BinaryOp(
        Box::new(
            BinaryOpV {
                op: o,
                left: ExprV::Atom(AtomV::Number(a)),
                right: ExprV::Atom(AtomV::Number(b)),
            },
        ),
    );
    assert(expr_size(ExprV::Atom(AtomV::Number(a))) == 1);
    assert(expr_size(ExprV::Atom(AtomV::Number(b))) == 1);
    assert(expr_size(e) == 3);
    assert(first_blocker(ExprV::Atom(AtomV::Number(a))) is None);
    assert(first_blocker(ExprV::Atom(AtomV::Number(b))) is None);
    assert(first_blocker(e) is None);
    assert(eval_expr(ExprV::Atom(AtomV::Number(a)), num, op) == Option::Some(num(a)));
    assert(eval_expr(ExprV::Atom(AtomV::Number(b)), num, op) == Option::Some(num(b)));
    assert(eval_expr(e, num, op) == Option::Some(op(o, num(a), num(b))));
    theorem_compile_sound::<T>(e, num, op);
}

/// Compilation is a function of the expression alone: two compiles of one
/// tree — two fresh engines, or the same engine twice — give equal units,
/// hence the same value under every interpretation.
pub proof fn lemma_compile_deterministic<T>(
    e: ExprV,
    u1: UnitV,
    u2: UnitV,
    num: spec_fn(Number) -> T,
    op: spec_fn(Op, T, T) -> T,
)
    requires
        spec_compile(e) == Result::<UnitV, CodegenErrorV>::Ok(u1),
        spec_compile(e) == Result::<UnitV, CodegenErrorV>::Ok(u2),
    ensures
        u1 == u2,
        eval_unit(u1, num, op) == eval_unit(u2, num, op),
{
}

/// An identifier with no resolver configured always fails with
/// `UnboundIdentifier`, carrying that identifier's name — never by silently
/// producing a value.
pub proof fn lemma_unbound_identifier(name: Seq<char>)
    ensures
        spec_compile(ExprV::Atom(AtomV::Ident(name))) == Result::<UnitV, CodegenErrorV>::Err(
            CodegenErrorV::UnboundIdentifier(name),
        ),
{
}

// ---------------------------------------------------------------------------
// The executable engine
// ---------------------------------------------------------------------------

/// The code generation engine. Each call to [`Compiler::compile`] performs
/// one complete traversal from a fresh state.
#[derive(Debug)]
pub struct Compiler {
    instrs: Vec<Instr>,
    stack: Vec<usize>,
    error: Option<CodegenError>,
}

impl View for Compiler {
    type V = MachineV;

    closed spec fn view(&self) -> MachineV {
        MachineV { instrs: self.instrs@, stack: self.stack@, error: view_error_opt(self.error) }
    }
}

impl Compiler {
    /// Create a fresh engine.
    pub fn new() -> (c: Compiler)
        ensures
            c@ == fresh_machine(),
    {
        let c = Compiler { instrs: Vec::new(), stack: Vec::new(), error: Option::None };
        proof {
            assert(c@ =~= fresh_machine());
        }
        c
    }

    /// Compile an AST to a computation unit, named by the entry contract,
    /// that evaluates it; or report the first blocking node.
    pub fn compile(&mut self, ast: &Expr) -> (r: Result<CompiledUnit, CodegenError>)
        ensures
            result_matches(r, spec_compile(ast@)),
    {
        self.instrs = Vec::new();
        self.stack = Vec::new();
        self.error = Option::None;
        proof {
            assert(self@ =~= fresh_machine());
        }
        self.compile_function("calc_main", ast)
    }

    /// Build one complete unit: traverse `body`, then check the operand
    /// stack's residual and terminate the unit by returning it.
    fn compile_function(&mut self, name: &str, body: &Expr) -> (r: Result<
        CompiledUnit,
        CodegenError,
    >)
        requires
            old(self)@ == fresh_machine(),
        ensures
            result_matches(r, spec_compile_unit(body@, name@)),
    {
        self.compile_expr(body);
        let err = self.error.take();
        match err {
            Option::Some(e) => Result::Err(e),
            Option::None => {
                if self.stack.len() != 1 {
                    return Result::Err(CodegenError::EngineInvariantViolation);
                }
                let ret = self.stack[0];
                let mut instrs: Vec<Instr> = Vec::new();
                core::mem::swap(&mut instrs, &mut self.instrs);
                Result::Ok(CompiledUnit { name: name.to_owned(), instrs, ret })
            },
        }
    }

    /// Dispatch on the node kind, as the default visitor traversal does.
    fn compile_expr(&mut self, expr: &Expr)
        ensures
            final(self)@ == step_expr(old(self)@, expr@),
        decreases expr, 1int,
    {
        match expr {
            Expr::Atom(atom) => self.compile_atom(atom),
            Expr::BinaryOp(op) => self.compile_binary_op(op),
            Expr::FunctionCall(call) => self.compile_function_call(call),
        }
    }

    /// A literal becomes one constant instruction whose handle is pushed; an
    /// identifier has no resolver and fails.
    fn compile_atom(&mut self, atom: &Atom)
        ensures
            final(self)@ == step_atom(old(self)@, atom@),
    {
        if self.error.is_some() {
            return ;
        }
        match atom {
            Atom::Number(n) => {
                let handle = self.instrs.len();
                self.instrs.push(Instr::Const(*n));
                self.stack.push(handle);
                proof {
                    assert(self@ =~= step_atom(old(self)@, atom@));
                }
            },
            Atom::Ident(name) => {
                self.error = Option::Some(CodegenError::UnboundIdentifier(name.clone()));
                proof {
                    assert(self@ =~= step_atom(old(self)@, atom@));
                }
            },
        }
    }

    /// Compile the left operand fully, then the right (this inherited
    /// left-to-right walk is what fixes operand order for the
    /// non-commutative operators); then pop the right and left handles, in
    /// that stack order, and push one arithmetic instruction over them.
    fn compile_binary_op(&mut self, op: &BinaryOp)
        ensures
            final(self)@ == step_binary(old(self)@, op@),
        decreases op, 0int,
    {
        self.compile_expr(&op.left);
        self.compile_expr(&op.right);
        if self.error.is_some() {
            return ;
        }
        if self.stack.len() < 2 {
            // Unreachable for any tree, as proved by
            // `theorem_no_invariant_violation`; fail loudly all the same.
            self.error = Option::Some(CodegenError::EngineInvariantViolation);
            return ;
        }
        let rh = self.stack.pop().unwrap();
        let lh = self.stack.pop().unwrap();
        let handle = self.instrs.len();
        self.instrs.push(Instr::Arith(op.op, lh, rh));
        self.stack.push(handle);
        proof {
            let mid = step_expr(step_expr(old(self)@, op@.left), op@.right);
            assert(self@.stack =~= mid.stack.take(mid.stack.len() - 2).push(
                mid.instrs.len() as usize,
            ));
            assert(self@ =~= step_binary(old(self)@, op@));
        }
    }

    /// Function-call code generation needs a resolver this engine does not
    /// have: fail at the call node, naming the function.
    fn compile_function_call(&mut self, call: &FunctionCall)
        ensures
            final(self)@ == step_call(old(self)@, call@),
    {
        if self.error.is_some() {
            return ;
        }
        self.error = Option::Some(CodegenError::UnsupportedConstruct(call.name.clone()));
    }
}

/// The engine is a visitor: each hook performs exactly one traversal step of
/// the machine.
impl Visitor for Compiler {
    open spec fn post_expr(&self, pre: Self, e: Expr) -> bool {
        self@ == step_expr(pre@, e@)
    }

    open spec fn post_binary_op(&self, pre: Self, b: BinaryOp) -> bool {
        self@ == step_binary(pre@, b@)
    }

    open spec fn post_function_call(&self, pre: Self, f: FunctionCall) -> bool {
        self@ == step_call(pre@, f@)
    }

    open spec fn post_atom(&self, pre: Self, a: Atom) -> bool {
        self@ == step_atom(pre@, a@)
    }

    fn visit_expr(&mut self, e: &Expr) {
        self.compile_expr(e)
    }

    fn visit_binary_op(&mut self, b: &BinaryOp) {
        self.compile_binary_op(b)
    }

    fn visit_function_call(&mut self, f: &FunctionCall) {
        self.compile_function_call(f)
    }

    fn visit_atom(&mut self, a: &Atom) {
        self.compile_atom(a)
    }
}

/// The fixed entry symbol of the entry contract: the name under which a
/// backend exposes a compiled unit.
pub fn calc_entrypoint() -> (s: &'static str)
    ensures
        s@ == entry_name(),
{
    "calc_main"
}

} // verus!
