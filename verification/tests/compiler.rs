//! Code generation tests: the compiled unit, run by a small floating-point
//! backend, behaves as the source expression.

use calc::syntax::{parse, Atom, BinaryOp, Expr, FunctionCall, Number, Op};
use calc::trans::compiler::{calc_entrypoint, CodegenError, CompiledUnit, Compiler, Instr};
use calc::trans::translate;

/// The floating-point value a literal stands for.
fn to_f64(n: &Number) -> f64 {
    (n.mantissa as f64) / 10f64.powi(n.scale as i32)
}

/// A minimal backend: run a unit's straight-line body and return its
/// residual value.
fn run_unit(u: &CompiledUnit) -> f64 {
    let mut vals: Vec<f64> = Vec::new();
    for ins in &u.instrs {
        let v = match ins {
            Instr::Const(n) => to_f64(n),
            Instr::Arith(op, l, r) => {
                let a = vals[*l];
                let b = vals[*r];
                match op {
                    Op::Add => a + b,
                    Op::Subtract => a - b,
                    Op::Multiply => a * b,
                    Op::Divide => a / b,
                }
            }
        };
        vals.push(v);
    }
    vals[u.ret]
}

fn execute(src: &str) -> f64 {
    let ast = parse(src).unwrap();
    let module = translate(&ast).unwrap();
    run_unit(&module)
}

#[test]
fn compile_a_single_instruction() {
    let should_be = 3.14;
    let src = Expr::Atom(Atom::Number(Number::new(314, 2)));

    let got = Compiler::new().compile(&src).unwrap();

    assert_eq!(got.name, "calc_main");
    assert_eq!(got.instrs.len(), 1);

    // The unit returns its one residual value.
    assert_eq!(got.ret, got.instrs.len() - 1);

    let result = run_unit(&got);
    assert_eq!(result, should_be);
}

#[test]
fn execute_some_binary_ops() {
    let inputs = vec![
        ("1+1", 2.0),
        ("1-1", 0.0),
        ("2*4.5", 9.0),
        ("100.0/3", 100.0 / 3.0),
    ];

    for (src, should_be) in inputs {
        let got = execute(src);
        assert_eq!(got, should_be);
    }
}

#[test]
fn execute_a_more_complex_statement() {
    let src = "5 * (100 + 3) / 9 - 2.5";
    let should_be = 5.0 * (100.0 + 3.0) / 9.0 - 2.5;

    let got = execute(src);
    assert_eq!(got, should_be);
}

#[test]
fn literal_compiles_to_itself() {
    for (m, s, v) in [(0u64, 0u64, 0.0f64), (42, 0, 42.0), (25, 1, 2.5), (314, 2, 3.14)] {
        let e = Expr::Atom(Atom::Number(Number::new(m, s)));
        let unit = translate(&e).unwrap();
        assert_eq!(run_unit(&unit), v);
    }
}

#[test]
fn binary_ops_follow_ieee() {
    let a = Expr::Atom(Atom::Number(Number::new(1, 0)));
    let b = Expr::Atom(Atom::Number(Number::new(0, 0)));
    let e = Expr::BinaryOp(Box::new(BinaryOp::div(a, b)));
    let unit = translate(&e).unwrap();
    assert_eq!(run_unit(&unit), f64::INFINITY);

    assert_eq!(execute("7/2"), 3.5);
    assert_eq!(execute("0.1+0.2"), 0.1 + 0.2);
}

#[test]
fn operand_order_is_respected() {
    let e = Expr::BinaryOp(Box::new(BinaryOp::sub(
        Expr::Atom(Atom::Number(Number::new(3, 0))),
        Expr::Atom(Atom::Number(Number::new(2, 0))),
    )));
    let unit = translate(&e).unwrap();
    assert_eq!(run_unit(&unit), 1.0);

    assert_eq!(execute("3-2"), 1.0);
    assert_eq!(execute("8/4"), 2.0);
}

#[test]
fn precedence_and_parentheses() {
    assert_eq!(execute("2+3*4"), 14.0);
    assert_eq!(execute("(2+3)*4"), 20.0);
    assert_eq!(execute("10-4-3"), 3.0);
    assert_eq!(execute("100/10/2"), 5.0);
}

#[test]
fn compiling_twice_is_equivalent() {
    let ast = parse("5 * (100 + 3) / 9 - 2.5").unwrap();

    // Two fresh engines.
    let u1 = Compiler::new().compile(&ast).unwrap();
    let u2 = Compiler::new().compile(&ast).unwrap();
    assert_eq!(u1, u2);
    assert_eq!(run_unit(&u1), run_unit(&u2));

    // The same engine twice.
    let mut c = Compiler::new();
    let u3 = c.compile(&ast).unwrap();
    let u4 = c.compile(&ast).unwrap();
    assert_eq!(u3, u4);
    assert_eq!(u1, u3);
}

#[test]
fn unbound_identifier_fails() {
    let e = Expr::Atom(Atom::Ident(String::from("foo")));
    let got = translate(&e);
    assert_eq!(got, Err(CodegenError::UnboundIdentifier(String::from("foo"))));
}

#[test]
fn function_call_is_unsupported() {
    let e = Expr::FunctionCall(FunctionCall::new(
        String::from("sin"),
        vec![Expr::Atom(Atom::Number(Number::new(900, 1)))],
    ));
    let got = translate(&e);
    assert_eq!(
        got,
        Err(CodegenError::UnsupportedConstruct(String::from("sin")))
    );
}

#[test]
fn first_blocker_in_traversal_order_wins() {
    // The identifier in the left subtree is reached before the call on the
    // right, so its error is the one reported.
    let ast = parse("5 + (3-2) * x - sin(90.0)").unwrap();
    let got = translate(&ast);
    assert_eq!(got, Err(CodegenError::UnboundIdentifier(String::from("x"))));
}

#[test]
fn entrypoint_is_fixed() {
    assert_eq!(calc_entrypoint(), "calc_main");
    let unit = translate(&parse("1").unwrap()).unwrap();
    assert_eq!(unit.name, calc_entrypoint());
}

/// Reference semantics: evaluate the tree directly.
fn eval_ast(e: &Expr) -> f64 {
    match e {
        Expr::Atom(Atom::Number(n)) => to_f64(n),
        Expr::Atom(Atom::Ident(_)) => panic!("unbound identifier"),
        Expr::FunctionCall(_) => panic!("unsupported construct"),
        Expr::BinaryOp(b) => {
            let l = eval_ast(&b.left);
            let r = eval_ast(&b.right);
            match b.op {
                Op::Add => l + r,
                Op::Subtract => l - r,
                Op::Multiply => l * r,
                Op::Divide => l / r,
            }
        }
    }
}

fn next(seed: &mut u64) -> u32 {
    *seed = seed
        .wrapping_mul(6364136223846793005)
        .wrapping_add(1442695040888963407);
    (*seed >> 33) as u32
}

fn gen_tree(seed: &mut u64, depth: u32) -> Expr {
    let r = next(seed);
    if depth == 0 || r % 3 == 0 {
        Expr::Atom(Atom::Number(Number::new((r % 1000) as u64, (r % 3) as u64)))
    } else {
        let op = match r % 4 {
            0 => Op::Add,
            1 => Op::Subtract,
            2 => Op::Multiply,
            _ => Op::Divide,
        };
        let left = gen_tree(seed, depth - 1);
        let right = gen_tree(seed, depth - 1);
        Expr::BinaryOp(Box::new(BinaryOp::new(left, right, op)))
    }
}

#[test]
fn arbitrary_trees_never_violate_the_stack_invariant() {
    let mut seed: u64 = 12345;
    for round in 0..200u32 {
        let tree = gen_tree(&mut seed, 1 + round % 6);
        let unit = match Compiler::new().compile(&tree) {
            Ok(u) => u,
            Err(e) => panic!("literal-only tree failed to compile: {:?}", e),
        };
        assert!(unit.ret == unit.instrs.len() - 1);
        let got = run_unit(&unit);
        let want = eval_ast(&tree);
        // Bitwise comparison, NaN included.
        assert_eq!(got.to_bits(), want.to_bits());
    }
}
