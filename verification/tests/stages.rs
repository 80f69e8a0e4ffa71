//! Stage-by-stage tests: the lexer, the converter, the evaluator and the
//! token model, each on its own.

use shunting::convert::convert;
use shunting::errors::{EvalError, LexError};
use shunting::eval::{evaluate_postfix, Expr};
use shunting::lexer::{check_numeral, Lexer};
use shunting::parser::Parser;
use shunting::token::Token;

fn lex(s: &str) -> Vec<Token> {
    Lexer::default().string(s.to_string()).tokennize().unwrap()
}

fn chars(s: &str) -> Vec<char> {
    s.chars().collect()
}

#[test]
fn lexer_splits_numbers_symbols_and_names() {
    let ts = lex("12+sqrt(3.5)");
    assert_eq!(ts.len(), 6);
    match &ts[0] {
        Token::Number(v) => assert_eq!(v.iter().collect::<String>(), "12"),
        other => panic!("expected a number, got {:?}", other),
    }
    assert!(matches!(ts[1], Token::Add));
    assert!(matches!(ts[2], Token::Sqrt));
    assert!(matches!(ts[3], Token::LParen));
    match &ts[4] {
        Token::Number(v) => assert_eq!(v.iter().collect::<String>(), "3.5"),
        other => panic!("expected a number, got {:?}", other),
    }
    assert!(matches!(ts[5], Token::RParen));
}

#[test]
fn lexer_spaces_do_not_break_a_literal() {
    let ts = lex("1 2");
    assert_eq!(ts.len(), 1);
    match &ts[0] {
        Token::Number(v) => assert_eq!(v.iter().collect::<String>(), "12"),
        other => panic!("expected a number, got {:?}", other),
    }
}

#[test]
fn lexer_number_flushes_before_identifier() {
    let ts = lex("2pi");
    assert_eq!(ts.len(), 2);
    assert!(matches!(ts[0], Token::Number(_)));
    assert!(matches!(ts[1], Token::Pi));
}

#[test]
fn parse_function_resolves_the_table() {
    assert!(matches!(Lexer::parse_function(&chars("max")), Ok(Token::Max)));
    assert!(matches!(Lexer::parse_function(&chars("min")), Ok(Token::Min)));
    assert!(matches!(Lexer::parse_function(&chars("sin")), Ok(Token::Sin)));
    assert!(matches!(Lexer::parse_function(&chars("cos")), Ok(Token::Cos)));
    assert!(matches!(Lexer::parse_function(&chars("tan")), Ok(Token::Tan)));
    assert!(matches!(Lexer::parse_function(&chars("sqrt")), Ok(Token::Sqrt)));
    assert!(matches!(Lexer::parse_function(&chars("pi")), Ok(Token::Pi)));
    assert!(matches!(Lexer::parse_function(&chars("inf")), Ok(Token::Inf)));
    assert!(matches!(
        Lexer::parse_function(&chars("Max")),
        Err(LexError::UnknownFunction(_))
    ));
    assert!(matches!(
        Lexer::parse_function(&chars("sq")),
        Err(LexError::UnknownFunction(_))
    ));
}

#[test]
fn parse_op_resolves_the_symbols() {
    assert!(matches!(Lexer::parse_op('+'), Ok(Token::Add)));
    assert!(matches!(Lexer::parse_op('-'), Ok(Token::Sub)));
    assert!(matches!(Lexer::parse_op('/'), Ok(Token::Div)));
    assert!(matches!(Lexer::parse_op('*'), Ok(Token::Mul)));
    assert!(matches!(Lexer::parse_op('^'), Ok(Token::Pow)));
    assert!(matches!(Lexer::parse_op('('), Ok(Token::LParen)));
    assert!(matches!(Lexer::parse_op(')'), Ok(Token::RParen)));
    assert!(matches!(Lexer::parse_op(','), Ok(Token::Comma)));
    assert!(matches!(Lexer::parse_op('%'), Err(LexError::UnknownOperator('%'))));
}

#[test]
fn numeral_validity() {
    assert!(check_numeral(&chars("1")));
    assert!(check_numeral(&chars("1.5")));
    assert!(check_numeral(&chars("1.")));
    assert!(check_numeral(&chars(".5")));
    assert!(!check_numeral(&chars(".")));
    assert!(!check_numeral(&chars("1.2.3")));
    assert!(!check_numeral(&chars("")));
    assert!(!check_numeral(&chars("1a")));
}

#[test]
fn token_static_properties() {
    assert_eq!(Token::Add.precedence(), Some(1));
    assert_eq!(Token::Sub.precedence(), Some(1));
    assert_eq!(Token::Mul.precedence(), Some(2));
    assert_eq!(Token::Div.precedence(), Some(2));
    assert_eq!(Token::Pow.precedence(), Some(3));
    assert_eq!(Token::Sin.precedence(), Some(0));
    assert_eq!(Token::LParen.precedence(), None);
    assert_eq!(Token::Pow.associativity(), Some(true));
    assert_eq!(Token::Add.associativity(), Some(false));
    assert_eq!(Token::Max.associativity(), None);
    assert!(Token::LParen.is_paren() && Token::RParen.is_paren());
    assert!(Token::Pi.is_function() && Token::Sqrt.is_function());
    assert!(Token::Pow.is_operator());
    assert!(!Token::Comma.is_operator() && !Token::Comma.is_paren());
}

#[test]
fn convert_orders_by_precedence() {
    let post = convert(&lex("1+2*3")).unwrap();
    let shape: Vec<String> = post.iter().map(|t| format!("{:?}", t)).collect();
    assert_eq!(shape.len(), 5);
    assert!(matches!(post[0], Token::Number(_)));
    assert!(matches!(post[1], Token::Number(_)));
    assert!(matches!(post[2], Token::Number(_)));
    assert!(matches!(post[3], Token::Mul));
    assert!(matches!(post[4], Token::Add));
    assert!(shape[0].contains('1') && shape[1].contains('2') && shape[2].contains('3'));
}

#[test]
fn convert_keeps_function_arguments_apart() {
    let post = convert(&lex("max(3,5)")).unwrap();
    assert_eq!(post.len(), 3);
    assert!(matches!(post[0], Token::Number(_)));
    assert!(matches!(post[1], Token::Number(_)));
    assert!(matches!(post[2], Token::Max));
}

#[test]
fn evaluate_postfix_underflows_on_missing_operand() {
    let toks = vec![Token::Number(chars("1")), Token::Add];
    assert!(matches!(evaluate_postfix(&toks), Err(EvalError::StackUnderflow)));
}

#[test]
fn evaluate_postfix_rejects_leftovers() {
    let toks = vec![Token::Number(chars("1")), Token::Number(chars("2"))];
    assert!(matches!(evaluate_postfix(&toks), Err(EvalError::MalformedResult)));
}

#[test]
fn token_evaluate_builds_a_node() {
    let mut stack: Vec<Expr> = Vec::new();
    assert!(Token::Number(chars("2")).evaluate(&mut stack).is_ok());
    assert!(Token::Number(chars("3")).evaluate(&mut stack).is_ok());
    assert!(Token::Sub.evaluate(&mut stack).is_ok());
    assert_eq!(stack.len(), 1);
    match &stack[0] {
        Expr::Apply2(_, a, b) => {
            match (&**a, &**b) {
                (Expr::Num(x), Expr::Num(y)) => {
                    assert_eq!(x.iter().collect::<String>(), "2");
                    assert_eq!(y.iter().collect::<String>(), "3");
                }
                other => panic!("expected two literals, got {:?}", other),
            }
        }
        other => panic!("expected an applied operator, got {:?}", other),
    }
    let mut empty: Vec<Expr> = Vec::new();
    assert!(matches!(
        Token::Add.evaluate(&mut empty),
        Err(EvalError::StackUnderflow)
    ));
}

#[test]
fn parser_builder_runs_the_stages() {
    let p = Parser::new()
        .input("2^3^2".to_string())
        .tokenize()
        .unwrap()
        .shunt()
        .unwrap()
        .evaluate()
        .unwrap();
    assert_eq!(p.infix_tokens.len(), 5);
    assert_eq!(p.postfix_tokens.len(), 5);
    assert_eq!(p.stack.len(), 1);
    assert!(matches!(p.postfix_tokens[4], Token::Pow));
}
