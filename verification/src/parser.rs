//! The pipeline as a builder: feed a string in, tokenize it, shunt the
//! tokens into postfix order, and evaluate them against a value stack.
//! Each stage's outcome is the corresponding stage function's, and a
//! failing stage surfaces its typed error instead of a parser.

use vstd::prelude::*;

use crate::convert::{convert, shunt_spec};
use crate::errors::{EvalError, LexError, LexErrorSpec, ParseError};
use crate::eval::{evaluate_postfix, eval_spec, expr_views, Expr, ExprSpec};
use crate::lexer::{lex_spec, Lexer};
use crate::token::{token_views, Token, TokenSpec};

verus! {

/// The pipeline's state: the lexer and the sequences each stage fills.
pub struct Parser {
    pub lexer: Lexer,
    pub infix_tokens: Vec<Token>,
    pub postfix_tokens: Vec<Token>,
    pub stack: Vec<Expr>,
}

impl Parser {
    /// An empty pipeline: no text, no tokens, an empty value stack.
    pub fn new() -> (r: Self)
        ensures
            r.lexer.string@ == Seq::<char>::empty(),
            r.infix_tokens@ == Seq::<Token>::empty(),
            r.postfix_tokens@ == Seq::<Token>::empty(),
            r.stack@ == Seq::<Expr>::empty(),
    {
        Parser {
            lexer: Lexer::default(),
            infix_tokens: Vec::new(),
            postfix_tokens: Vec::new(),
            stack: Vec::new(),
        }
    }

    /// Replaces the expression text to evaluate.
    pub fn input(self, insert: String) -> (r: Self)
        ensures
            r.lexer.string@ == insert@,
            r.infix_tokens == self.infix_tokens,
            r.postfix_tokens == self.postfix_tokens,
            r.stack == self.stack,
    {
        Parser { lexer: self.lexer.string(insert), ..self }
    }

    /// Runs the lexer over the stored text, filling the infix sequence.
    pub fn tokenize(self) -> (r: Result<Parser, LexError>)
        ensures
            (match r {
                Ok(p) => lex_spec(self.lexer.string@) == Ok::<Seq<TokenSpec>, LexErrorSpec>(
                    token_views(p.infix_tokens@),
                ) && p.lexer == self.lexer && p.postfix_tokens == self.postfix_tokens && p.stack
                    == self.stack,
                Err(e) => lex_spec(self.lexer.string@) == Err::<Seq<TokenSpec>, LexErrorSpec>(e@),
            }),
    {
        match self.lexer.tokennize() {
            Ok(ts) => Ok(Parser { infix_tokens: ts, ..self }),
            Err(e) => Err(e),
        }
    }

    /// Converts the infix sequence to postfix order.
    pub fn shunt(self) -> (r: Result<Parser, ParseError>)
        ensures
            (match r {
                Ok(p) => shunt_spec(token_views(self.infix_tokens@)) == Ok::<
                    Seq<TokenSpec>,
                    ParseError,
                >(token_views(p.postfix_tokens@)) && p.lexer == self.lexer && p.infix_tokens
                    == self.infix_tokens && p.stack == self.stack,
                Err(e) => shunt_spec(token_views(self.infix_tokens@)) == Err::<
                    Seq<TokenSpec>,
                    ParseError,
                >(e),
            }),
    {
        match convert(&self.infix_tokens) {
            Ok(post) => Ok(Parser { postfix_tokens: post, ..self }),
            Err(e) => Err(e),
        }
    }

    /// Evaluates the postfix sequence; on success the value stack holds
    /// exactly the resulting expression.
    pub fn evaluate(self) -> (r: Result<Parser, EvalError>)
        ensures
            (match r {
                Ok(p) => eval_spec(token_views(self.postfix_tokens@)) matches Ok(es)
                    && expr_views(p.stack@) == seq![es] && p.lexer == self.lexer && p.infix_tokens
                    == self.infix_tokens && p.postfix_tokens == self.postfix_tokens,
                Err(e) => eval_spec(token_views(self.postfix_tokens@)) == Err::<
                    ExprSpec,
                    EvalError,
                >(e),
            }),
    {
        match evaluate_postfix(&self.postfix_tokens) {
            Ok(e) => {
                let ghost ev = e@;
                let mut st: Vec<Expr> = Vec::new();
                st.push(e);
                proof {
                    assert(expr_views(st@) =~= seq![ev]);
                }
                Ok(Parser { stack: st, ..self })
            },
            Err(e) => Err(e),
        }
    }
}

} // verus!
