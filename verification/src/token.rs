//! The token model: the closed set of lexical units together with their
//! static properties (category, precedence, associativity).

use vstd::prelude::*;

verus! {

/// Mathematical image of a [`Token`]: identical in shape, except that a
/// number is its digit text as a sequence of characters.
pub enum TokenSpec {
    Number(Seq<char>),
    Add,
    Sub,
    Mul,
    Div,
    Pow,
    Max,
    Min,
    Sin,
    Cos,
    Tan,
    Sqrt,
    LParen,
    RParen,
    Comma,
    Inf,
    Pi,
}

/// One lexical unit of an expression. A `Number` holds the literal's text
/// (digits with at most one decimal point), not a machine float: turning
/// the text into a float is the caller's concern, outside this library.
#[derive(Debug)]
pub enum Token {
    Number(Vec<char>),
    Add,
    Sub,
    Mul,
    Div,
    Pow,
    Max,
    Min,
    Sin,
    Cos,
    Tan,
    Sqrt,
    LParen,
    RParen,
    Comma,
    Inf,
    Pi,
}

impl View for Token {
    type V = TokenSpec;

    open spec fn view(&self) -> TokenSpec {
        match self {
            Token::Number(v) => TokenSpec::Number(v@),
            Token::Add => TokenSpec::Add,
            Token::Sub => TokenSpec::Sub,
            Token::Mul => TokenSpec::Mul,
            Token::Div => TokenSpec::Div,
            Token::Pow => TokenSpec::Pow,
            Token::Max => TokenSpec::Max,
            Token::Min => TokenSpec::Min,
            Token::Sin => TokenSpec::Sin,
            Token::Cos => TokenSpec::Cos,
            Token::Tan => TokenSpec::Tan,
            Token::Sqrt => TokenSpec::Sqrt,
            Token::LParen => TokenSpec::LParen,
            Token::RParen => TokenSpec::RParen,
            Token::Comma => TokenSpec::Comma,
            Token::Inf => TokenSpec::Inf,
            Token::Pi => TokenSpec::Pi,
        }
    }
}

/// The views of a token sequence, element by element.
pub open spec fn token_views(ts: Seq<Token>) -> Seq<TokenSpec> {
    ts.map_values(|t: Token| t@)
}

pub open spec fn tok_is_paren(t: TokenSpec) -> bool {
    t == TokenSpec::LParen || t == TokenSpec::RParen
}

pub open spec fn tok_is_function(t: TokenSpec) -> bool {
    ||| t == TokenSpec::Max
    ||| t == TokenSpec::Min
    ||| t == TokenSpec::Sin
    ||| t == TokenSpec::Cos
    ||| t == TokenSpec::Tan
    ||| t == TokenSpec::Sqrt
    ||| t == TokenSpec::Pi
    ||| t == TokenSpec::Inf
}

pub open spec fn tok_is_operator(t: TokenSpec) -> bool {
    ||| t == TokenSpec::Add
    ||| t == TokenSpec::Sub
    ||| t == TokenSpec::Mul
    ||| t == TokenSpec::Div
    ||| t == TokenSpec::Pow
}

/// Precedence: defined for operators (1 for `+ -`, 2 for `* /`, 3 for `^`)
/// and, for grouping purposes, 0 for functions; absent otherwise.
pub open spec fn tok_precedence(t: TokenSpec) -> Option<u8> {
    if t == TokenSpec::Add || t == TokenSpec::Sub {
        Some(1u8)
    } else if t == TokenSpec::Mul || t == TokenSpec::Div {
        Some(2u8)
    } else if t == TokenSpec::Pow {
        Some(3u8)
    } else if tok_is_function(t) {
        Some(0u8)
    } else {
        None
    }
}

/// Associativity: defined for operators only; `Some(true)` means
/// right-associative (`^`), `Some(false)` left-associative.
pub open spec fn tok_associativity(t: TokenSpec) -> Option<bool> {
    if t == TokenSpec::Pow {
        Some(true)
    } else if tok_is_operator(t) {
        Some(false)
    } else {
        None
    }
}

impl Token {
    /// Whether this token is `(` or `)`.
    pub fn is_paren(&self) -> (r: bool)
        ensures
            r == tok_is_paren(self@),
    {
        match self {
            Token::LParen | Token::RParen => true,
            _ => false,
        }
    }

    /// Whether this token is a function or a named constant
    /// (constants are modeled as zero-argument functions).
    pub fn is_function(&self) -> (r: bool)
        ensures
            r == tok_is_function(self@),
    {
        match self {
            Token::Max | Token::Min | Token::Sin | Token::Cos | Token::Tan | Token::Sqrt
            | Token::Pi | Token::Inf => true,
            _ => false,
        }
    }

    /// Whether this token is one of the binary arithmetic operators.
    pub fn is_operator(&self) -> (r: bool)
        ensures
            r == tok_is_operator(self@),
    {
        match self {
            Token::Add | Token::Sub | Token::Mul | Token::Div | Token::Pow => true,
            _ => false,
        }
    }

    /// The token's precedence, where it has one.
    pub fn precedence(&self) -> (r: Option<u8>)
        ensures
            r == tok_precedence(self@),
    {
        match self {
            Token::Add | Token::Sub => Some(1u8),
            Token::Mul | Token::Div => Some(2u8),
            Token::Pow => Some(3u8),
            Token::Max | Token::Min | Token::Sin | Token::Cos | Token::Tan | Token::Sqrt
            | Token::Pi | Token::Inf => Some(0u8),
            _ => None,
        }
    }

    /// The token's associativity, where it has one:
    /// `Some(true)` for the right-associative `^`.
    pub fn associativity(&self) -> (r: Option<bool>)
        ensures
            r == tok_associativity(self@),
    {
        match self {
            Token::Pow => Some(true),
            Token::Add | Token::Sub | Token::Mul | Token::Div => Some(false),
            _ => None,
        }
    }
}

impl Clone for Token {
    /// A clone is indistinguishable from the source token in every
    /// contract: the views agree.
    fn clone(&self) -> (res: Token)
        ensures
            res@ == self@,
    {
        match self {
            Token::Number(v) => {
                let mut w: Vec<char> = Vec::new();
                let mut i: usize = 0;
                while i < v.len()
                    invariant
                        i <= v.len(),
                        w@ == v@.take(i as int),
                    decreases v.len() - i,
                {
                    w.push(v[i]);
                    proof {
                        assert(v@.take(i + 1 as int) =~= v@.take(i as int).push(v@[i as int]));
                    }
                    i = i + 1;
                }
                proof {
                    assert(w@ =~= v@);
                }
                Token::Number(w)
            }
            Token::Add => Token::Add,
            Token::Sub => Token::Sub,
            Token::Mul => Token::Mul,
            Token::Div => Token::Div,
            Token::Pow => Token::Pow,
            Token::Max => Token::Max,
            Token::Min => Token::Min,
            Token::Sin => Token::Sin,
            Token::Cos => Token::Cos,
            Token::Tan => Token::Tan,
            Token::Sqrt => Token::Sqrt,
            Token::LParen => Token::LParen,
            Token::RParen => Token::RParen,
            Token::Comma => Token::Comma,
            Token::Inf => Token::Inf,
            Token::Pi => Token::Pi,
        }
    }
}

} // verus!
