//! Parser tests: source text to AST.

use calc::syntax::{parse, Atom, BinaryOp, Expr, FunctionCall, Number, ParseError};

fn atom(n: Number) -> Expr {
    Expr::from_atom(Atom::Number(n))
}

#[test]
fn parse_a_number_atom() {
    let src = "3.14";
    let should_be = Expr::Atom(Atom::Number(Number::new(314, 2)));

    let got = parse(src).unwrap();
    assert_eq!(got, should_be);
}

#[test]
fn parse_an_identifier() {
    let src = "x";
    let should_be = Expr::Atom(Atom::Ident(String::from(src)));

    let got = parse(src).unwrap();
    assert_eq!(got, should_be);
}

#[test]
fn parse_a_multiply() {
    let src = "a * 5";
    let should_be = BinaryOp::mult(
        Expr::from_atom(Atom::Ident(String::from("a"))),
        atom(Number::new(5, 0)),
    );
    let should_be = Expr::from_binary_op(should_be);

    let got = parse(src).unwrap();
    assert_eq!(got, should_be);
}

#[test]
fn parse_a_function_call() {
    let src = "sin(90.0)";
    let should_be = Expr::from_function_call(FunctionCall::new(
        String::from("sin"),
        vec![atom(Number::new(900, 1))],
    ));

    let got = parse(src).unwrap();
    assert_eq!(got, should_be);
}

#[test]
fn complex_parse_tree() {
    let src = "5 + (3-2) * x - sin(90.0)";
    let should_be = BinaryOp::sub(
        Expr::BinaryOp(Box::new(BinaryOp::add(
            Expr::Atom(Atom::Number(Number::new(5, 0))),
            Expr::BinaryOp(Box::new(BinaryOp::mult(
                Expr::BinaryOp(Box::new(BinaryOp::sub(
                    Expr::Atom(Atom::Number(Number::new(3, 0))),
                    Expr::Atom(Atom::Number(Number::new(2, 0))),
                ))),
                Expr::Atom(Atom::Ident(String::from("x"))),
            ))),
        ))),
        Expr::FunctionCall(FunctionCall::new(
            String::from("sin"),
            vec![Expr::Atom(Atom::Number(Number::new(900, 1)))],
        )),
    );
    let should_be = Expr::BinaryOp(Box::new(should_be));

    let got = parse(src).unwrap();

    assert_eq!(got, should_be);
}

#[test]
fn number_literals_normalize() {
    // "90.0" and "90" spell the same value, so their atoms are equal.
    assert_eq!(Number::new(900, 1), Number::new(90, 0));
    assert_eq!(parse("90.0").unwrap(), parse("90").unwrap());
    // "2.50" and "2.5" as well.
    assert_eq!(Number::new(250, 2), Number::new(25, 1));
    // Distinct values stay distinct.
    assert_ne!(Number::new(25, 1), Number::new(25, 0));
    // A whole number needs no normalizing.
    assert_eq!(Number::from_int(5), Number::new(5, 0));
}

#[test]
fn parse_empty_argument_list() {
    let src = "f()";
    let should_be = Expr::FunctionCall(FunctionCall::new(String::from("f"), vec![]));
    assert_eq!(parse(src).unwrap(), should_be);
}

#[test]
fn parse_two_arguments() {
    let src = "max(1, 2)";
    let should_be = Expr::FunctionCall(FunctionCall::new(
        String::from("max"),
        vec![
            Expr::Atom(Atom::Number(Number::new(1, 0))),
            Expr::Atom(Atom::Number(Number::new(2, 0))),
        ],
    ));
    assert_eq!(parse(src).unwrap(), should_be);
}

#[test]
fn parse_rejects_invalid_character() {
    assert_eq!(parse("$"), Err(ParseError::InvalidCharacter));
    // A point with no digit after it is malformed too.
    assert_eq!(parse("1."), Err(ParseError::InvalidCharacter));
}

#[test]
fn parse_rejects_incomplete_expression() {
    assert_eq!(parse("1+"), Err(ParseError::SyntaxError));
    assert_eq!(parse("(1"), Err(ParseError::SyntaxError));
    assert_eq!(parse(""), Err(ParseError::SyntaxError));
}

#[test]
fn parse_rejects_trailing_input() {
    assert_eq!(parse("1 2"), Err(ParseError::TrailingInput));
    assert_eq!(parse("1)"), Err(ParseError::TrailingInput));
}

#[test]
fn parse_rejects_oversized_literal() {
    // One digit more than the largest representable mantissa.
    assert_eq!(
        parse("99999999999999999999999999"),
        Err(ParseError::NumberTooLarge)
    );
    // The largest representable mantissa itself is fine.
    assert_eq!(
        parse("18446744073709551615").unwrap(),
        Expr::Atom(Atom::Number(Number::new(u64::MAX, 0)))
    );
}
