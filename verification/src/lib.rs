//! An arithmetic expression calculator built from three verified stages:
//! a lexer that turns text into tokens, a shunting-yard converter that
//! reorders infix tokens into postfix order, and a stack-based evaluator
//! that reads a postfix sequence back as a single expression.
//!
//! Numeric literals travel through the pipeline as validated digit text and
//! the evaluator produces the fully applied expression tree; reading that
//! tree as a machine float is left to callers, since floating-point
//! arithmetic stands outside what the library verifies.

use vstd::prelude::*;

pub mod convert;
pub mod errors;
pub mod eval;
pub mod lexer;
pub mod parser;
pub mod token;

use crate::convert::{convert, shunt_spec};
use crate::errors::{Error, ErrorSpec};
use crate::eval::{evaluate_postfix, eval_spec, Expr, ExprSpec};
use crate::lexer::{lex_spec, Lexer};

verus! {

/// The outcome of the whole pipeline on an expression text: lexing, then
/// conversion to postfix, then evaluation; the first failing stage's
/// error, tagged with its stage, otherwise the resulting expression.
pub open spec fn pipeline_spec(s: Seq<char>) -> Result<ExprSpec, ErrorSpec> {
    match lex_spec(s) {
        Err(e) => Err(ErrorSpec::Lex(e)),
        Ok(toks) => match shunt_spec(toks) {
            Err(e) => Err(ErrorSpec::Parse(e)),
            Ok(post) => match eval_spec(post) {
                Err(e) => Err(ErrorSpec::Eval(e)),
                Ok(v) => Ok(v),
            },
        },
    }
}

/// Evaluates one expression string through the whole pipeline. The
/// outcome — expression or typed error — is exactly what
/// [`pipeline_spec`] says of the text, for every input.
pub fn evaluate_expression(input: String) -> (r: Result<Expr, Error>)
    ensures
        (match r {
            Ok(e) => pipeline_spec(input@) == Ok::<ExprSpec, ErrorSpec>(e@),
            Err(e) => pipeline_spec(input@) == Err::<ExprSpec, ErrorSpec>(e@),
        }),
{
    let lexer = Lexer::default().string(input);
    let toks = match lexer.tokennize() {
        Ok(ts) => ts,
        Err(e) => {
            return Err(Error::Lex(e));
        },
    };
    let post = match convert(&toks) {
        Ok(p) => p,
        Err(e) => {
            return Err(Error::Parse(e));
        },
    };
    match evaluate_postfix(&post) {
        Ok(e) => Ok(e),
        Err(e) => Err(Error::Eval(e)),
    }
}

/// Law: the pipeline is a pure function of its input text. Re-running it
/// on the same string, with no other state anywhere, reads back the same
/// outcome.
pub proof fn lemma_pipeline_deterministic(s1: Seq<char>, s2: Seq<char>)
    requires
        s1 == s2,
    ensures
        pipeline_spec(s1) == pipeline_spec(s2),
{
}

} // verus!
