//! The AST (abstract syntax tree) of the expression language, and the
//! mathematical views the contracts are stated over.

use vstd::prelude::*;

verus! {

broadcast use vstd::seq::axiom_seq_index_decreases, vstd::std_specs::vec::axiom_vec_index_decreases, vstd::std_specs::vec::axiom_vec_decreases_to_view;

/// The kind of operation in a `BinaryOp`.
#[derive(Debug, Clone, Copy, PartialEq, Eq, Structural)]
pub enum Op {
    /// Addition.
    Add,
    /// Division.
    Divide,
    /// Multiplication.
    Multiply,
    /// Subtraction.
    Subtract,
}

/// A numeric literal, stored exactly as the decimal the source text spells:
/// the represented value is `mantissa / 10^scale`.
///
/// Two literals that spell the same value (`90.0` and `90`) normalize to the
/// same `mantissa`/`scale` pair, so derived structural equality coincides
/// with equality of the represented values.
#[derive(Debug, Clone, Copy, PartialEq, Eq, Structural)]
pub struct Number {
    /// The literal's digits, as an integer.
    pub mantissa: u64,
    /// How many of the mantissa's low decimal digits lie behind the point.
    pub scale: u64,
}

/// Normalization of a mantissa/scale pair: strip trailing zero digits of the
/// mantissa into the scale, so that each represented value has one canonical
/// spelling.
pub open spec fn norm_spec(m: int, s: int) -> (int, int)
    decreases s,
{
    if s > 0 && m % 10 == 0 {
        norm_spec(m / 10, s - 1)
    } else {
        (m, s)
    }
}

/// `10^e`.
pub open spec fn pow10(e: int) -> int
    decreases e,
{
    if e <= 0 {
        1
    } else {
        10 * pow10(e - 1)
    }
}

/// The pair `(m, s)` stands for the value `m / 10^s`; two pairs stand for the
/// same value exactly when this cross-multiplied identity holds.
pub open spec fn same_value(m1: int, s1: int, m2: int, s2: int) -> bool {
    m1 * pow10(s2) == m2 * pow10(s1)
}

impl Number {
    /// Whether the pair is in canonical form.
    pub open spec fn is_normal(self) -> bool {
        self.scale > 0 ==> self.mantissa % 10 != 0
    }

    /// Build a literal from a mantissa/scale pair, normalizing it.
    pub fn new(mantissa: u64, scale: u64) -> (r: Number)
        ensures
            (r.mantissa as int, r.scale as int) == norm_spec(mantissa as int, scale as int),
            r.is_normal(),
            same_value(r.mantissa as int, r.scale as int, mantissa as int, scale as int),
    {
        proof {
            lemma_norm_spec_value(mantissa as int, scale as int);
        }
        let mut m = mantissa;
        let mut s = scale;
        while s > 0 && m % 10 == 0
            invariant
                norm_spec(m as int, s as int) == norm_spec(mantissa as int, scale as int),
            decreases s,
        {
            m = m / 10;
            s = s - 1;
        }
        Number { mantissa: m, scale: s }
    }

    /// Build a literal from a whole number.
    pub fn from_int(value: u64) -> (r: Number)
        ensures
            r == (Number { mantissa: value, scale: 0u64 }),
    {
        Number { mantissa: value, scale: 0 }
    }
}

/// Normalization keeps the represented value: the canonical pair stands for
/// the same value as the pair it came from.
pub proof fn lemma_norm_spec_value(m: int, s: int)
    requires
        m >= 0,
        s >= 0,
    ensures
        norm_spec(m, s).0 >= 0,
        0 <= norm_spec(m, s).1 <= s,
        same_value(norm_spec(m, s).0, norm_spec(m, s).1, m, s),
    decreases s,
{
    if s > 0 && m % 10 == 0 {
        lemma_norm_spec_value(m / 10, s - 1);
        let m10 = m / 10;
        let (m2, s2) = norm_spec(m10, s - 1);
        assert(m == 10 * m10);
        assert(pow10(s) == 10 * pow10(s - 1));
        assert(m2 * pow10(s - 1) == m10 * pow10(s2));
        assert(m2 * pow10(s) == 10 * (m2 * pow10(s - 1))) by (nonlinear_arith)
            requires
                pow10(s) == 10 * pow10(s - 1),
        ;
        assert(10 * (m10 * pow10(s2)) == (10 * m10) * pow10(s2)) by (nonlinear_arith);
        assert(m2 * pow10(s) == m * pow10(s2));
    }
}

/// `pow10` splits over addition.
pub proof fn lemma_pow10_add(a: int, b: int)
    requires
        a >= 0,
        b >= 0,
    ensures
        pow10(a + b) == pow10(a) * pow10(b),
    decreases a,
{
    if a > 0 {
        lemma_pow10_add(a - 1, b);
        assert(pow10(a + b) == 10 * pow10(a - 1 + b));
        assert(10 * (pow10(a - 1) * pow10(b)) == (10 * pow10(a - 1)) * pow10(b))
            by (nonlinear_arith);
    }
}

proof fn lemma_normal_eq_le(m1: int, s1: int, m2: int, s2: int)
    requires
        0 <= s1 <= s2,
        m1 >= 0,
        m2 >= 0,
        s1 > 0 ==> m1 % 10 != 0,
        s2 > 0 ==> m2 % 10 != 0,
        m1 * pow10(s2) == m2 * pow10(s1),
    ensures
        m1 == m2,
        s1 == s2,
{
    let d = s2 - s1;
    lemma_pow10_add(s1, d);
    lemma_pow10_pos(s1);
    assert((m1 * pow10(d)) * pow10(s1) == m1 * (pow10(s1) * pow10(d))) by (nonlinear_arith);
    assert(m1 * pow10(d) == m2) by (nonlinear_arith)
        requires
            (m1 * pow10(d)) * pow10(s1) == m2 * pow10(s1) && pow10(s1) >= 1,
    ;
    if d > 0 {
        assert(pow10(d) == 10 * pow10(d - 1));
        assert(m1 * (10 * pow10(d - 1)) == (m1 * pow10(d - 1)) * 10) by (nonlinear_arith);
        assert(((m1 * pow10(d - 1)) * 10) % 10 == 0) by (nonlinear_arith);
        assert(false);
    }
    assert(d == 0);
    assert(pow10(d) == 1);
    assert(m1 * pow10(d) == m1) by (nonlinear_arith)
        requires
            pow10(d) == 1,
    ;
}

/// `pow10` is positive.
pub proof fn lemma_pow10_pos(e: int)
    ensures
        pow10(e) >= 1,
    decreases e,
{
    if e > 0 {
        lemma_pow10_pos(e - 1);
    }
}

/// Canonical pairs are unique: two normalized literals standing for the same
/// value are equal. Since `Number::new` normalizes, the derived structural
/// equality of number atoms coincides with equality of the values their
/// literals spell (`90.0` equals `90`).
pub proof fn lemma_normal_eq(a: Number, b: Number)
    requires
        a.is_normal(),
        b.is_normal(),
        same_value(a.mantissa as int, a.scale as int, b.mantissa as int, b.scale as int),
    ensures
        a == b,
{
    if a.scale <= b.scale {
        lemma_normal_eq_le(a.mantissa as int, a.scale as int, b.mantissa as int, b.scale as int);
    } else {
        lemma_normal_eq_le(b.mantissa as int, b.scale as int, a.mantissa as int, a.scale as int);
    }
}

/// The most basic construct in the language.
#[derive(Debug, Clone, PartialEq)]
pub enum Atom {
    /// A numeric literal.
    Number(Number),
    /// An identifier (e.g. `foo`).
    Ident(String),
}

/// A binary operation.
#[derive(Debug, PartialEq)]
pub struct BinaryOp {
    /// What kind of operation is this?
    pub op: Op,
    /// The left operand.
    pub left: Expr,
    /// The right operand.
    pub right: Expr,
}

/// A function call.
#[derive(Debug, PartialEq)]
pub struct FunctionCall {
    /// The function being called.
    pub name: String,
    /// The list of arguments passed to the function call.
    pub arguments: Vec<Expr>,
}

/// An expression.
#[derive(Debug, PartialEq)]
pub enum Expr {
    /// A `FunctionCall` node.
    FunctionCall(FunctionCall),
    /// An `Atom` node.
    Atom(Atom),
    /// A `BinaryOp` node.
    BinaryOp(Box<BinaryOp>),
}

/// Mathematical view of an `Atom`.
pub enum AtomV {
    Number(Number),
    Ident(Seq<char>),
}

/// Mathematical view of a `BinaryOp`.
pub struct BinaryOpV {
    pub op: Op,
    pub left: ExprV,
    pub right: ExprV,
}

/// Mathematical view of a `FunctionCall`.
pub struct FunctionCallV {
    pub name: Seq<char>,
    pub arguments: Seq<ExprV>,
}

/// Mathematical view of an `Expr`.
pub enum ExprV {
    FunctionCall(FunctionCallV),
    Atom(AtomV),
    BinaryOp(Box<BinaryOpV>),
}

pub open spec fn view_atom(a: Atom) -> AtomV {
    match a {
        Atom::Number(n) => AtomV::Number(n),
        Atom::Ident(s) => AtomV::Ident(s@),
    }
}

pub open spec fn view_expr(e: Expr) -> ExprV
    decreases e, 1int,
{
    match e {
        Expr::Atom(a) => ExprV::Atom(view_atom(a)),
        Expr::BinaryOp(b) => ExprV::BinaryOp(
            Box::new(
                BinaryOpV { op: b.op, left: view_expr(b.left), right: view_expr(b.right) },
            ),
        ),
        Expr::FunctionCall(f) => ExprV::FunctionCall(
            FunctionCallV { name: f.name@, arguments: view_exprs(f.arguments@) },
        ),
    }
}

/// The views of a sequence of expressions, elementwise. (The out-of-range
/// branch is never read; it only bounds the recursion.)
pub open spec fn view_exprs(args: Seq<Expr>) -> Seq<ExprV>
    decreases args, 0int,
{
    Seq::new(
        args.len(),
        |i: int|
            if 0 <= i < args.len() {
                view_expr(args[i])
            } else {
                arbitrary()
            },
    )
}

impl View for Atom {
    type V = AtomV;

    open spec fn view(&self) -> AtomV {
        view_atom(*self)
    }
}

impl View for BinaryOp {
    type V = BinaryOpV;

    open spec fn view(&self) -> BinaryOpV {
        BinaryOpV { op: self.op, left: view_expr(self.left), right: view_expr(self.right) }
    }
}

impl View for FunctionCall {
    type V = FunctionCallV;

    open spec fn view(&self) -> FunctionCallV {
        FunctionCallV { name: self.name@, arguments: view_exprs(self.arguments@) }
    }
}

impl View for Expr {
    type V = ExprV;

    open spec fn view(&self) -> ExprV {
        view_expr(*self)
    }
}

impl BinaryOp {
    /// Create a new `BinaryOp`.
    pub fn new(left: Expr, right: Expr, op: Op) -> (r: BinaryOp)
        ensures
            r@ == (BinaryOpV { op, left: left@, right: right@ }),
    {
        BinaryOp { left, right, op }
    }

    /// Create an addition operation.
    pub fn add(left: Expr, right: Expr) -> (r: BinaryOp)
        ensures
            r@ == (BinaryOpV { op: Op::Add, left: left@, right: right@ }),
    {
        BinaryOp::new(left, right, Op::Add)
    }

    /// Create a subtract operation.
    pub fn sub(left: Expr, right: Expr) -> (r: BinaryOp)
        ensures
            r@ == (BinaryOpV { op: Op::Subtract, left: left@, right: right@ }),
    {
        BinaryOp::new(left, right, Op::Subtract)
    }

    /// Create a multiplication operation.
    pub fn mult(left: Expr, right: Expr) -> (r: BinaryOp)
        ensures
            r@ == (BinaryOpV { op: Op::Multiply, left: left@, right: right@ }),
    {
        BinaryOp::new(left, right, Op::Multiply)
    }

    /// Create a division operation.
    pub fn div(left: Expr, right: Expr) -> (r: BinaryOp)
        ensures
            r@ == (BinaryOpV { op: Op::Divide, left: left@, right: right@ }),
    {
        BinaryOp::new(left, right, Op::Divide)
    }
}

impl FunctionCall {
    /// Create a new `FunctionCall`.
    pub fn new(name: String, arguments: Vec<Expr>) -> (r: FunctionCall)
        ensures
            r@.name == name@,
            r@.arguments.len() == arguments@.len(),
            forall|i: int|
                0 <= i < arguments@.len() ==> r@.arguments[i] == #[trigger] arguments@[i]@,
    {
        FunctionCall { name, arguments }
    }
}

impl Expr {
    /// Wrap an atom as an expression.
    pub fn from_atom(a: Atom) -> (r: Expr)
        ensures
            r@ == ExprV::Atom(a@),
    {
        Expr::Atom(a)
    }

    /// Wrap a binary operation as an expression.
    pub fn from_binary_op(b: BinaryOp) -> (r: Expr)
        ensures
            r@ == ExprV::BinaryOp(Box::new(b@)),
    {
        Expr::BinaryOp(Box::new(b))
    }

    /// Wrap a function call as an expression.
    pub fn from_function_call(f: FunctionCall) -> (r: Expr)
        ensures
            r@ == ExprV::FunctionCall(f@),
    {
        Expr::FunctionCall(f)
    }
}

} // verus!
