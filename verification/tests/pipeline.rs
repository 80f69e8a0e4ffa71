//! End-to-end scenarios: whole expression strings through the pipeline,
//! read back as machine floats.

use shunting::errors::{Error, EvalError, LexError, ParseError};
use shunting::eval::{BinaryFn, Expr, UnaryFn};
use shunting::evaluate_expression;

/// Reads an expression tree as a machine float: literals parse as `f64`,
/// and each node applies the usual floating-point operation.
fn eval_f64(e: &Expr) -> f64 {
    match e {
        Expr::Num(v) => v.iter().collect::<String>().parse::<f64>().unwrap(),
        Expr::Pi => std::f64::consts::PI,
        Expr::Inf => f64::INFINITY,
        Expr::Apply1(f, a) => {
            let a = eval_f64(&**a);
            match f {
                UnaryFn::Sin => a.sin(),
                UnaryFn::Cos => a.cos(),
                UnaryFn::Tan => a.tan(),
                UnaryFn::Sqrt => a.sqrt(),
            }
        }
        Expr::Apply2(f, a, b) => {
            let a = eval_f64(&**a);
            let b = eval_f64(&**b);
            match f {
                BinaryFn::Add => a + b,
                BinaryFn::Sub => a - b,
                BinaryFn::Mul => a * b,
                BinaryFn::Div => a / b,
                BinaryFn::Pow => a.powf(b),
                BinaryFn::Min => a.min(b),
                BinaryFn::Max => a.max(b),
            }
        }
    }
}

fn run(s: &str) -> Result<f64, Error> {
    evaluate_expression(s.to_string()).map(|e| eval_f64(&e))
}

#[test]
fn operator_precedence() {
    assert_eq!(run("1+2*3").unwrap(), 7.0);
}

#[test]
fn power_is_right_associative() {
    assert_eq!(run("2^3^2").unwrap(), 512.0);
}

#[test]
fn grouping_overrides_precedence() {
    assert_eq!(run("(1+2)*3").unwrap(), 9.0);
}

#[test]
fn left_associative_subtraction() {
    assert_eq!(run("10-3-2").unwrap(), 5.0);
}

#[test]
fn binary_functions_with_comma() {
    assert_eq!(run("max(3,5)").unwrap(), 5.0);
    assert_eq!(run("min(3,5)").unwrap(), 3.0);
}

#[test]
fn nested_function_calls() {
    assert_eq!(run("max(min(1,2),3)").unwrap(), 3.0);
}

#[test]
fn unary_functions() {
    assert_eq!(run("sqrt(16)").unwrap(), 4.0);
    assert_eq!(run("sin(0)").unwrap(), 0.0);
}

#[test]
fn constants() {
    let v = run("pi").unwrap();
    assert!((v - 3.14159265358979).abs() < 1e-12);
    let w = run("inf").unwrap();
    assert!(w.is_infinite() && w > 0.0);
}

#[test]
fn compound_compounding() {
    let v = run("1*(1+1/999)^(999*1)").unwrap();
    assert!((v - 2.71691).abs() < 1e-4);
}

#[test]
fn decimal_literals() {
    assert_eq!(run("2.5*2").unwrap(), 5.0);
    assert_eq!(run(".5+.5").unwrap(), 1.0);
    assert_eq!(run("3.+1").unwrap(), 4.0);
}

#[test]
fn whitespace_is_skipped() {
    assert_eq!(run(" 1 + 2 ").unwrap(), 3.0);
}

#[test]
fn division_by_zero_is_not_an_error() {
    let v = run("1/0").unwrap();
    assert!(v.is_infinite() && v > 0.0);
}

#[test]
fn negative_sqrt_propagates_nan() {
    assert!(run("sqrt(0-1)").unwrap().is_nan());
}

#[test]
fn leading_operator_underflows() {
    assert!(matches!(run("+1"), Err(Error::Eval(EvalError::StackUnderflow))));
}

#[test]
fn unbalanced_open_paren() {
    assert!(matches!(
        run("(1+2"),
        Err(Error::Parse(ParseError::UnbalancedGrouping))
    ));
}

#[test]
fn unbalanced_close_paren() {
    assert!(matches!(
        run("1+2)"),
        Err(Error::Parse(ParseError::UnbalancedGrouping))
    ));
}

#[test]
fn comma_without_group() {
    assert!(matches!(
        run("1,2"),
        Err(Error::Parse(ParseError::UnbalancedGrouping))
    ));
}

#[test]
fn unknown_identifier() {
    match run("foo(1)") {
        Err(Error::Lex(LexError::UnknownFunction(name))) => {
            assert_eq!(name.iter().collect::<String>(), "foo");
        }
        other => panic!("expected an unknown-function error, got {:?}", other),
    }
}

#[test]
fn malformed_number() {
    match run("1.2.3") {
        Err(Error::Lex(LexError::MalformedNumber(text))) => {
            assert_eq!(text.iter().collect::<String>(), "1.2.3");
        }
        other => panic!("expected a malformed-number error, got {:?}", other),
    }
}

#[test]
fn lone_dot_is_malformed() {
    assert!(matches!(run("."), Err(Error::Lex(LexError::MalformedNumber(_)))));
}

#[test]
fn unknown_symbol() {
    match run("1#2") {
        Err(Error::Lex(LexError::UnknownOperator(c))) => assert_eq!(c, '#'),
        other => panic!("expected an unknown-operator error, got {:?}", other),
    }
}

#[test]
fn empty_input_is_malformed_result() {
    assert!(matches!(run(""), Err(Error::Eval(EvalError::MalformedResult))));
}

#[test]
fn leftover_operand_is_malformed_result() {
    assert!(matches!(run("(1)(2)"), Err(Error::Eval(EvalError::MalformedResult))));
}

#[test]
fn same_input_same_outcome() {
    let a = run("1*(1+1/999)^(999*1)").unwrap();
    let b = run("1*(1+1/999)^(999*1)").unwrap();
    assert_eq!(a, b);
    let e1 = run("(1+2");
    let e2 = run("(1+2");
    assert!(matches!(e1, Err(Error::Parse(ParseError::UnbalancedGrouping))));
    assert!(matches!(e2, Err(Error::Parse(ParseError::UnbalancedGrouping))));
}
