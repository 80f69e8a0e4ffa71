//! The postfix evaluator: a single left-to-right pass over a postfix token
//! sequence against one value stack. Each arity-0 token pushes a leaf;
//! each unary or binary token pops its operands (the later pop is the left
//! operand) and pushes the applied node. The result is the fully applied
//! expression tree; reading it as a machine float is the caller's concern,
//! outside this library.

use vstd::prelude::*;

use crate::errors::EvalError;
use crate::token::{token_views, Token, TokenSpec};

verus! {

/// The unary functions.
#[derive(Clone, Copy, Debug, PartialEq, Eq, Structural)]
pub enum UnaryFn {
    Sin,
    Cos,
    Tan,
    Sqrt,
}

/// The binary operators and functions.
#[derive(Clone, Copy, Debug, PartialEq, Eq, Structural)]
pub enum BinaryFn {
    Add,
    Sub,
    Mul,
    Div,
    Pow,
    Min,
    Max,
}

/// A fully applied arithmetic expression: what a postfix sequence denotes.
/// A `Num` leaf carries the literal's digit text; `Pi` and `Inf` are the
/// named constants. In `Apply2` the first operand is the left one.
#[derive(Debug)]
pub enum Expr {
    Num(Vec<char>),
    Pi,
    Inf,
    Apply1(UnaryFn, Box<Expr>),
    Apply2(BinaryFn, Box<Expr>, Box<Expr>),
}

/// Mathematical image of an [`Expr`]: identical in shape, with digit text
/// as a sequence of characters.
pub enum ExprSpec {
    Num(Seq<char>),
    Pi,
    Inf,
    Apply1(UnaryFn, Box<ExprSpec>),
    Apply2(BinaryFn, Box<ExprSpec>, Box<ExprSpec>),
}

pub open spec fn expr_view(e: Expr) -> ExprSpec
    decreases e,
{
    match e {
        Expr::Num(v) => ExprSpec::Num(v@),
        Expr::Pi => ExprSpec::Pi,
        Expr::Inf => ExprSpec::Inf,
        Expr::Apply1(f, a) => ExprSpec::Apply1(f, Box::new(expr_view(*a))),
        Expr::Apply2(f, a, b) => ExprSpec::Apply2(f, Box::new(expr_view(*a)), Box::new(expr_view(*b))),
    }
}

impl View for Expr {
    type V = ExprSpec;

    open spec fn view(&self) -> ExprSpec {
        expr_view(*self)
    }
}

/// The views of a value stack, element by element.
pub open spec fn expr_views(s: Seq<Expr>) -> Seq<ExprSpec> {
    s.map_values(|e: Expr| expr_view(e))
}

/// One unary application on the stack: pop the operand, push the node.
pub open spec fn push_unary(stack: Seq<ExprSpec>, f: UnaryFn) -> Result<Seq<ExprSpec>, EvalError> {
    if stack.len() < 1 {
        Err(EvalError::StackUnderflow)
    } else {
        Ok(stack.drop_last().push(ExprSpec::Apply1(f, Box::new(stack.last()))))
    }
}

/// One binary application on the stack: the first pop is the right
/// operand, the second the left — postfix `a b op` means `a` was pushed
/// first.
pub open spec fn push_binary(stack: Seq<ExprSpec>, f: BinaryFn) -> Result<
    Seq<ExprSpec>,
    EvalError,
> {
    if stack.len() < 2 {
        Err(EvalError::StackUnderflow)
    } else {
        let b = stack.last();
        let a = stack[stack.len() - 2];
        Ok(stack.drop_last().drop_last().push(ExprSpec::Apply2(f, Box::new(a), Box::new(b))))
    }
}

/// What one token does to the value stack. Numbers and the constants push
/// a leaf; unary and binary tokens pop and apply; parentheses and commas,
/// which a converted sequence never contains, change nothing.
pub open spec fn eval_step_spec(stack: Seq<ExprSpec>, t: TokenSpec) -> Result<
    Seq<ExprSpec>,
    EvalError,
> {
    match t {
        TokenSpec::Number(s) => Ok(stack.push(ExprSpec::Num(s))),
        TokenSpec::Pi => Ok(stack.push(ExprSpec::Pi)),
        TokenSpec::Inf => Ok(stack.push(ExprSpec::Inf)),
        TokenSpec::Sin => push_unary(stack, UnaryFn::Sin),
        TokenSpec::Cos => push_unary(stack, UnaryFn::Cos),
        TokenSpec::Tan => push_unary(stack, UnaryFn::Tan),
        TokenSpec::Sqrt => push_unary(stack, UnaryFn::Sqrt),
        TokenSpec::Add => push_binary(stack, BinaryFn::Add),
        TokenSpec::Sub => push_binary(stack, BinaryFn::Sub),
        TokenSpec::Mul => push_binary(stack, BinaryFn::Mul),
        TokenSpec::Div => push_binary(stack, BinaryFn::Div),
        TokenSpec::Pow => push_binary(stack, BinaryFn::Pow),
        TokenSpec::Min => push_binary(stack, BinaryFn::Min),
        TokenSpec::Max => push_binary(stack, BinaryFn::Max),
        TokenSpec::LParen => Ok(stack),
        TokenSpec::RParen => Ok(stack),
        TokenSpec::Comma => Ok(stack),
    }
}

/// The run of a postfix sequence from position `i` on the given stack.
pub open spec fn eval_run(postfix: Seq<TokenSpec>, i: int, stack: Seq<ExprSpec>) -> Result<
    Seq<ExprSpec>,
    EvalError,
>
    decreases postfix.len() - i,
{
    if i < 0 || i >= postfix.len() {
        Ok(stack)
    } else {
        match eval_step_spec(stack, postfix[i]) {
            Ok(s) => eval_run(postfix, i + 1, s),
            Err(e) => Err(e),
        }
    }
}

/// The whole evaluation of a postfix sequence: run every token from an
/// empty stack; exactly one value must remain, and it is the result.
pub open spec fn eval_spec(postfix: Seq<TokenSpec>) -> Result<ExprSpec, EvalError> {
    match eval_run(postfix, 0, Seq::<ExprSpec>::empty()) {
        Ok(s) => if s.len() == 1 {
            Ok(s[0])
        } else {
            Err(EvalError::MalformedResult)
        },
        Err(e) => Err(e),
    }
}

fn apply_unary(f: UnaryFn, stack: &mut Vec<Expr>) -> (r: Result<(), EvalError>)
    ensures
        (match push_unary(expr_views(old(stack)@), f) {
            Ok(s) => r is Ok && expr_views(final(stack)@) == s,
            Err(e) => r matches Err(er) && er == e,
        }),
{
    if stack.len() < 1 {
        return Err(EvalError::StackUnderflow);
    }
    let ghost prev = expr_views(stack@);
    let a = stack.pop().unwrap();
    let ghost av = a@;
    stack.push(Expr::Apply1(f, Box::new(a)));
    proof {
        assert(expr_views(stack@) =~= prev.drop_last().push(
            ExprSpec::Apply1(f, Box::new(av)),
        ));
    }
    Ok(())
}

fn apply_binary(f: BinaryFn, stack: &mut Vec<Expr>) -> (r: Result<(), EvalError>)
    ensures
        (match push_binary(expr_views(old(stack)@), f) {
            Ok(s) => r is Ok && expr_views(final(stack)@) == s,
            Err(e) => r matches Err(er) && er == e,
        }),
{
    if stack.len() < 2 {
        return Err(EvalError::StackUnderflow);
    }
    let ghost prev = expr_views(stack@);
    let b = stack.pop().unwrap();
    let a = stack.pop().unwrap();
    let ghost av = a@;
    let ghost bv = b@;
    stack.push(Expr::Apply2(f, Box::new(a), Box::new(b)));
    proof {
        assert(expr_views(stack@) =~= prev.drop_last().drop_last().push(
            ExprSpec::Apply2(f, Box::new(av), Box::new(bv)),
        ));
    }
    Ok(())
}

impl Token {
    /// Applies this token to the value stack, exactly as
    /// [`eval_step_spec`] says: leaves push, functions and operators pop
    /// their operands and push the applied node, and too few operands is
    /// a stack underflow.
    pub fn evaluate(self, stack: &mut Vec<Expr>) -> (r: Result<(), EvalError>)
        ensures
            (match eval_step_spec(expr_views(old(stack)@), self@) {
                Ok(s) => r is Ok && expr_views(final(stack)@) == s,
                Err(e) => r matches Err(er) && er == e,
            }),
    {
        match self {
            Token::Number(v) => {
                let ghost prev = expr_views(stack@);
                let ghost sv = v@;
                stack.push(Expr::Num(v));
                proof {
                    assert(expr_views(stack@) =~= prev.push(ExprSpec::Num(sv)));
                }
                Ok(())
            },
            Token::Pi => {
                let ghost prev = expr_views(stack@);
                stack.push(Expr::Pi);
                proof {
                    assert(expr_views(stack@) =~= prev.push(ExprSpec::Pi));
                }
                Ok(())
            },
            Token::Inf => {
                let ghost prev = expr_views(stack@);
                stack.push(Expr::Inf);
                proof {
                    assert(expr_views(stack@) =~= prev.push(ExprSpec::Inf));
                }
                Ok(())
            },
            Token::Sin => apply_unary(UnaryFn::Sin, stack),
            Token::Cos => apply_unary(UnaryFn::Cos, stack),
            Token::Tan => apply_unary(UnaryFn::Tan, stack),
            Token::Sqrt => apply_unary(UnaryFn::Sqrt, stack),
            Token::Add => apply_binary(BinaryFn::Add, stack),
            Token::Sub => apply_binary(BinaryFn::Sub, stack),
            Token::Mul => apply_binary(BinaryFn::Mul, stack),
            Token::Div => apply_binary(BinaryFn::Div, stack),
            Token::Pow => apply_binary(BinaryFn::Pow, stack),
            Token::Min => apply_binary(BinaryFn::Min, stack),
            Token::Max => apply_binary(BinaryFn::Max, stack),
            Token::LParen => Ok(()),
            Token::RParen => Ok(()),
            Token::Comma => Ok(()),
        }
    }
}

/// Evaluates a postfix token sequence to the expression it denotes,
/// exactly as [`eval_spec`] reads it: an operator or function short of
/// operands is a stack underflow, and anything but exactly one remaining
/// value is a malformed result.
pub fn evaluate_postfix(postfix: &Vec<Token>) -> (r: Result<Expr, EvalError>)
    ensures
        (match r {
            Ok(e) => eval_spec(token_views(postfix@)) == Ok::<ExprSpec, EvalError>(e@),
            Err(er) => eval_spec(token_views(postfix@)) == Err::<ExprSpec, EvalError>(er),
        }),
{
    let ghost pv = token_views(postfix@);
    let mut stack: Vec<Expr> = Vec::new();
    proof {
        assert(expr_views(stack@) =~= Seq::<ExprSpec>::empty());
    }
    let mut i: usize = 0;
    while i < postfix.len()
        invariant
            i <= postfix@.len(),
            pv == token_views(postfix@),
            eval_run(pv, 0, Seq::<ExprSpec>::empty()) == eval_run(pv, i as int, expr_views(stack@)),
        decreases postfix@.len() - i,
    {
        let t = postfix[i].clone();
        let ghost tv = t@;
        proof {
            assert(pv[i as int] == tv);
        }
        let ghost sv = expr_views(stack@);
        match t.evaluate(&mut stack) {
            Ok(_) => {
                proof {
                    assert(eval_run(pv, i as int, sv) == eval_run(
                        pv,
                        i + 1 as int,
                        expr_views(stack@),
                    ));
                }
            },
            Err(e) => {
                proof {
                    assert(eval_run(pv, i as int, sv) == Err::<Seq<ExprSpec>, EvalError>(e));
                }
                return Err(e);
            },
        }
        i = i + 1;
    }
    let ghost fin = expr_views(stack@);
    proof {
        assert(eval_run(pv, i as int, fin) == Ok::<Seq<ExprSpec>, EvalError>(fin));
    }
    if stack.len() == 1 {
        let e = stack.pop().unwrap();
        proof {
            assert(fin.len() == 1);
            assert(fin[0] == e@);
        }
        Ok(e)
    } else {
        Err(EvalError::MalformedResult)
    }
}

} // verus!
