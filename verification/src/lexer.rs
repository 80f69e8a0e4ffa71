//! The lexer: a single left-to-right pass that turns an expression string
//! into a token sequence. Pending digits or letters accumulate in a single
//! tagged mode (idle, number, identifier), so the two buffers can never be
//! live at once.

use vstd::prelude::*;

use crate::errors::{LexError, LexErrorSpec};
use crate::token::{token_views, Token, TokenSpec};

verus! {

pub open spec fn is_space_char(c: char) -> bool {
    c == ' ' || c == '\t' || c == '\n' || c == '\r'
}

pub open spec fn is_digit_char(c: char) -> bool {
    ||| c == '0'
    ||| c == '1'
    ||| c == '2'
    ||| c == '3'
    ||| c == '4'
    ||| c == '5'
    ||| c == '6'
    ||| c == '7'
    ||| c == '8'
    ||| c == '9'
}

/// Lowercase ASCII letters are the identifier alphabet.
pub open spec fn is_lower_char(c: char) -> bool {
    97 <= c as u32 && c as u32 <= 122
}

pub fn digit_char(c: char) -> (r: bool)
    ensures
        r == is_digit_char(c),
{
    match c {
        '0' | '1' | '2' | '3' | '4' | '5' | '6' | '7' | '8' | '9' => true,
        _ => false,
    }
}

pub fn lower_char(c: char) -> (r: bool)
    ensures
        r == is_lower_char(c),
{
    let u: u32 = c as u32;
    97 <= u && u <= 122
}

/// The identifier resolution table: exact, case-sensitive matches only.
pub open spec fn ident_token_spec(s: Seq<char>) -> Option<TokenSpec> {
    if s == seq!['m', 'a', 'x'] {
        Some(TokenSpec::Max)
    } else if s == seq!['m', 'i', 'n'] {
        Some(TokenSpec::Min)
    } else if s == seq!['s', 'i', 'n'] {
        Some(TokenSpec::Sin)
    } else if s == seq!['c', 'o', 's'] {
        Some(TokenSpec::Cos)
    } else if s == seq!['t', 'a', 'n'] {
        Some(TokenSpec::Tan)
    } else if s == seq!['s', 'q', 'r', 't'] {
        Some(TokenSpec::Sqrt)
    } else if s == seq!['p', 'i'] {
        Some(TokenSpec::Pi)
    } else if s == seq!['i', 'n', 'f'] {
        Some(TokenSpec::Inf)
    } else {
        None
    }
}

/// The symbol table: each single-character symbol and its token.
pub open spec fn op_token_spec(c: char) -> Option<TokenSpec> {
    if c == '+' {
        Some(TokenSpec::Add)
    } else if c == '-' {
        Some(TokenSpec::Sub)
    } else if c == '/' {
        Some(TokenSpec::Div)
    } else if c == '*' {
        Some(TokenSpec::Mul)
    } else if c == '^' {
        Some(TokenSpec::Pow)
    } else if c == '(' {
        Some(TokenSpec::LParen)
    } else if c == ')' {
        Some(TokenSpec::RParen)
    } else if c == ',' {
        Some(TokenSpec::Comma)
    } else {
        None
    }
}

pub open spec fn has_digit(s: Seq<char>) -> bool {
    exists|k: int| 0 <= k < s.len() && is_digit_char(s[k])
}

pub open spec fn at_most_one_dot(s: Seq<char>) -> bool {
    forall|p: int, q: int| 0 <= p < q < s.len() ==> !(s[p] == '.' && s[q] == '.')
}

/// Only digits and decimal points.
pub open spec fn numeral_chars(s: Seq<char>) -> bool {
    forall|k: int| 0 <= k < s.len() ==> is_digit_char(#[trigger] s[k]) || s[k] == '.'
}

/// The numerals the lexer accepts: non-empty text of digits and decimal
/// points, with at most one point and at least one digit. Anything else
/// that reaches the number buffer is a malformed number.
pub open spec fn valid_numeral(s: Seq<char>) -> bool {
    s.len() > 0 && numeral_chars(s) && at_most_one_dot(s) && has_digit(s)
}

/// Decides [`valid_numeral`] for a buffered literal.
pub fn check_numeral(digits: &Vec<char>) -> (r: bool)
    ensures
        r == valid_numeral(digits@),
{
    let mut saw_dot = false;
    let mut saw_digit = false;
    let mut i: usize = 0;
    while i < digits.len()
        invariant
            i <= digits@.len(),
            saw_dot == exists|k: int| 0 <= k < i && digits@[k] == '.',
            saw_digit == exists|k: int| 0 <= k < i && is_digit_char(digits@[k]),
            forall|p: int, q: int| 0 <= p < q < i ==> !(digits@[p] == '.' && digits@[q] == '.'),
            forall|k: int| 0 <= k < i ==> is_digit_char(#[trigger] digits@[k]) || digits@[k] == '.',
        decreases digits@.len() - i,
    {
        let c = digits[i];
        if c == '.' {
            if saw_dot {
                proof {
                    let k = choose|k: int| 0 <= k < i && digits@[k] == '.';
                    assert(!(at_most_one_dot(digits@))) by {
                        assert(digits@[k] == '.' && digits@[i as int] == '.');
                    }
                }
                return false;
            }
            saw_dot = true;
            proof {
                assert(digits@[i as int] == '.');
            }
        } else if digit_char(c) {
            saw_digit = true;
            proof {
                assert(is_digit_char(digits@[i as int]));
            }
        } else {
            proof {
                assert(!(is_digit_char(digits@[i as int]) || digits@[i as int] == '.'));
            }
            return false;
        }
        i = i + 1;
    }
    saw_digit && digits.len() > 0
}

/// Copies a character buffer; the copy has the same view.
pub fn copy_chars(v: &Vec<char>) -> (w: Vec<char>)
    ensures
        w@ == v@,
{
    let mut w: Vec<char> = Vec::new();
    let mut i: usize = 0;
    while i < v.len()
        invariant
            i <= v@.len(),
            w@ == v@.take(i as int),
        decreases v@.len() - i,
    {
        w.push(v[i]);
        proof {
            assert(v@.take(i + 1 as int) =~= v@.take(i as int).push(v@[i as int]));
        }
        i = i + 1;
    }
    proof {
        assert(w@ =~= v@);
    }
    w
}

/// The lexer: holds the expression text to scan.
pub struct Lexer {
    pub string: String,
}

impl Default for Lexer {
    /// A lexer over the empty string.
    fn default() -> (r: Self)
        ensures
            r.string@ == Seq::<char>::empty(),
    {
        Lexer { string: String::new() }
    }
}

/// The lexer's single accumulation mode: it is structurally impossible to
/// be collecting a number and an identifier at the same time.
pub enum LexMode {
    Idle,
    Num(Vec<char>),
    Ident(Vec<char>),
}

/// Mathematical image of `LexMode`.
pub enum LexModeSpec {
    Idle,
    Num(Seq<char>),
    Ident(Seq<char>),
}

impl View for LexMode {
    type V = LexModeSpec;

    open spec fn view(&self) -> LexModeSpec {
        match self {
            LexMode::Idle => LexModeSpec::Idle,
            LexMode::Num(b) => LexModeSpec::Num(b@),
            LexMode::Ident(b) => LexModeSpec::Ident(b@),
        }
    }
}

/// What flushing a pending buffer emits: nothing when idle, a number
/// token for a valid numeral, the resolved function or constant token
/// for a known identifier; otherwise the corresponding error.
pub open spec fn flush_spec(m: LexModeSpec) -> Result<Seq<TokenSpec>, LexErrorSpec> {
    match m {
        LexModeSpec::Idle => Ok(Seq::<TokenSpec>::empty()),
        LexModeSpec::Num(b) => if valid_numeral(b) {
            Ok(seq![TokenSpec::Number(b)])
        } else {
            Err(LexErrorSpec::MalformedNumber(b))
        },
        LexModeSpec::Ident(b) => match ident_token_spec(b) {
            Some(t) => Ok(seq![t]),
            None => Err(LexErrorSpec::UnknownFunction(b)),
        },
    }
}

/// Prepends already-emitted tokens to the outcome of the rest of a scan.
pub open spec fn lex_compose(
    prefix: Seq<TokenSpec>,
    r: Result<Seq<TokenSpec>, LexErrorSpec>,
) -> Result<Seq<TokenSpec>, LexErrorSpec> {
    match r {
        Ok(ts) => Ok(prefix + ts),
        Err(e) => Err(e),
    }
}

/// One left-to-right scan of `s` from position `i` in mode `m`:
/// whitespace is skipped, digits and `.` accumulate a number (flushing a
/// pending identifier first), symbols flush any pending buffer and then
/// emit their own token, letters accumulate an identifier (flushing a
/// pending number first), and any other character is an error. At the end
/// of the input the pending buffer is flushed.
pub open spec fn lex_from(s: Seq<char>, i: int, m: LexModeSpec) -> Result<
    Seq<TokenSpec>,
    LexErrorSpec,
>
    decreases s.len() - i,
{
    if i < 0 || i >= s.len() {
        flush_spec(m)
    } else {
        let c = s[i];
        if is_space_char(c) {
            lex_from(s, i + 1, m)
        } else if is_digit_char(c) || c == '.' {
            match m {
                LexModeSpec::Num(b) => lex_from(s, i + 1, LexModeSpec::Num(b.push(c))),
                _ => match flush_spec(m) {
                    Ok(ts) => lex_compose(ts, lex_from(s, i + 1, LexModeSpec::Num(seq![c]))),
                    Err(e) => Err(e),
                },
            }
        } else {
            match op_token_spec(c) {
                Some(t) => match flush_spec(m) {
                    Ok(ts) => lex_compose(ts.push(t), lex_from(s, i + 1, LexModeSpec::Idle)),
                    Err(e) => Err(e),
                },
                None => if is_lower_char(c) {
                    match m {
                        LexModeSpec::Ident(b) => lex_from(s, i + 1, LexModeSpec::Ident(b.push(c))),
                        _ => match flush_spec(m) {
                            Ok(ts) => lex_compose(
                                ts,
                                lex_from(s, i + 1, LexModeSpec::Ident(seq![c])),
                            ),
                            Err(e) => Err(e),
                        },
                    }
                } else {
                    Err(LexErrorSpec::UnknownOperator(c))
                },
            }
        }
    }
}

/// The whole scan of an expression string.
pub open spec fn lex_spec(s: Seq<char>) -> Result<Seq<TokenSpec>, LexErrorSpec> {
    lex_from(s, 0, LexModeSpec::Idle)
}

pub proof fn lemma_lex_compose_assoc(
    a: Seq<TokenSpec>,
    b: Seq<TokenSpec>,
    r: Result<Seq<TokenSpec>, LexErrorSpec>,
)
    ensures
        lex_compose(a, lex_compose(b, r)) == lex_compose(a + b, r),
{
    match r {
        Ok(ts) => {
            assert(a + (b + ts) =~= (a + b) + ts);
        },
        Err(_) => {},
    }
}

impl Lexer {
    /// Replaces the text this lexer scans.
    pub fn string(self, input: String) -> (r: Lexer)
        ensures
            r.string@ == input@,
    {
        Lexer { string: input }
    }

    /// Resolves a buffered identifier against the table
    /// `max min sin cos tan sqrt pi inf`; anything else is an
    /// unknown function.
    pub fn parse_function(func: &Vec<char>) -> (r: Result<Token, LexError>)
        ensures
            match r {
                Ok(t) => ident_token_spec(func@) == Some(t@),
                Err(e) => ident_token_spec(func@) is None && e@ == LexErrorSpec::UnknownFunction(
                    func@,
                ),
            },
    {
        let n = func.len();
        if n == 3 && func[0] == 'm' && func[1] == 'a' && func[2] == 'x' {
            proof {
                assert(func@ =~= seq!['m', 'a', 'x']);
            }
            Ok(Token::Max)
        } else if n == 3 && func[0] == 'm' && func[1] == 'i' && func[2] == 'n' {
            proof {
                assert(func@ =~= seq!['m', 'i', 'n']);
            }
            Ok(Token::Min)
        } else if n == 3 && func[0] == 's' && func[1] == 'i' && func[2] == 'n' {
            proof {
                assert(func@ =~= seq!['s', 'i', 'n']);
            }
            Ok(Token::Sin)
        } else if n == 3 && func[0] == 'c' && func[1] == 'o' && func[2] == 's' {
            proof {
                assert(func@ =~= seq!['c', 'o', 's']);
            }
            Ok(Token::Cos)
        } else if n == 3 && func[0] == 't' && func[1] == 'a' && func[2] == 'n' {
            proof {
                assert(func@ =~= seq!['t', 'a', 'n']);
            }
            Ok(Token::Tan)
        } else if n == 4 && func[0] == 's' && func[1] == 'q' && func[2] == 'r' && func[3] == 't' {
            proof {
                assert(func@ =~= seq!['s', 'q', 'r', 't']);
            }
            Ok(Token::Sqrt)
        } else if n == 2 && func[0] == 'p' && func[1] == 'i' {
            proof {
                assert(func@ =~= seq!['p', 'i']);
            }
            Ok(Token::Pi)
        } else if n == 3 && func[0] == 'i' && func[1] == 'n' && func[2] == 'f' {
            proof {
                assert(func@ =~= seq!['i', 'n', 'f']);
            }
            Ok(Token::Inf)
        } else {
            Err(LexError::UnknownFunction(copy_chars(func)))
        }
    }

    /// Turns a single-character symbol into its token; anything else is
    /// an unknown operator.
    pub fn parse_op(op: char) -> (r: Result<Token, LexError>)
        ensures
            match r {
                Ok(t) => op_token_spec(op) == Some(t@),
                Err(e) => op_token_spec(op) is None && e@ == LexErrorSpec::UnknownOperator(op),
            },
    {
        match op {
            '+' => Ok(Token::Add),
            '-' => Ok(Token::Sub),
            '/' => Ok(Token::Div),
            '*' => Ok(Token::Mul),
            '^' => Ok(Token::Pow),
            '(' => Ok(Token::LParen),
            ')' => Ok(Token::RParen),
            ',' => Ok(Token::Comma),
            _ => Err(LexError::UnknownOperator(op)),
        }
    }

    /// Scans the whole string into tokens, or reports the first lexical
    /// error, exactly as [`lex_spec`] reads the text.
    pub fn tokennize(&self) -> (r: Result<Vec<Token>, LexError>)
        ensures
            match r {
                Ok(ts) => lex_spec(self.string@) == Ok::<Seq<TokenSpec>, LexErrorSpec>(
                    token_views(ts@),
                ),
                Err(e) => lex_spec(self.string@) == Err::<Seq<TokenSpec>, LexErrorSpec>(e@),
            },
    {
        let s = self.string.as_str();
        let n = s.unicode_len();
        let mut out: Vec<Token> = Vec::new();
        let mut mode: LexMode = LexMode::Idle;
        let mut i: usize = 0;
        while i < n
            invariant
                i <= n,
                n == s@.len(),
                s@ == self.string@,
                lex_spec(self.string@) == lex_compose(
                    token_views(out@),
                    lex_from(s@, i as int, mode@),
                ),
            decreases n - i,
        {
            let ghost pre = token_views(out@);
            let ghost m0 = mode@;
            let c = s.get_char(i);
            let m = mode;
            if c == ' ' || c == '\t' || c == '\n' || c == '\r' {
                mode = m;
                proof {
                    assert(lex_from(s@, i as int, m0) == lex_from(s@, i + 1 as int, m0));
                }
            } else if digit_char(c) || c == '.' {
                mode = match m {
                    LexMode::Num(mut buf) => {
                        buf.push(c);
                        LexMode::Num(buf)
                    },
                    other => {
                        match Self::flush_mode(other, &mut out) {
                            Ok(_) => {
                                let mut buf: Vec<char> = Vec::new();
                                buf.push(c);
                                proof {
                                    assert(buf@ =~= seq![c]);
                                }
                                LexMode::Num(buf)
                            },
                            Err(e) => {
                                proof {
                                    assert(lex_from(s@, i as int, m0) == Err::<
                                        Seq<TokenSpec>,
                                        LexErrorSpec,
                                    >(e@));
                                }
                                return Err(e);
                            },
                        }
                    },
                };
                proof {
                    match m0 {
                        LexModeSpec::Num(b) => {
                            assert(lex_from(s@, i as int, m0) == lex_from(
                                s@,
                                i + 1 as int,
                                LexModeSpec::Num(b.push(c)),
                            ));
                        },
                        _ => {
                            let ts = match flush_spec(m0) {
                                Ok(ts) => ts,
                                Err(_) => Seq::<TokenSpec>::empty(),
                            };
                            lemma_lex_compose_assoc(
                                pre,
                                ts,
                                lex_from(s@, i + 1 as int, LexModeSpec::Num(seq![c])),
                            );
                        },
                    }
                }
            } else {
                match Self::parse_op(c) {
                    Ok(t) => {
                        let ghost tv = t@;
                        match Self::flush_mode(m, &mut out) {
                            Ok(_) => {
                                let ghost mid = token_views(out@);
                                out.push(t);
                                mode = LexMode::Idle;
                                proof {
                                    let ts = match flush_spec(m0) {
                                        Ok(ts) => ts,
                                        Err(_) => Seq::<TokenSpec>::empty(),
                                    };
                                    assert(token_views(out@) =~= mid.push(tv));
                                    lemma_lex_compose_assoc(
                                        pre,
                                        ts.push(tv),
                                        lex_from(s@, i + 1 as int, LexModeSpec::Idle),
                                    );
                                    assert(pre + ts.push(tv) =~= (pre + ts).push(tv));
                                }
                            },
                            Err(e) => {
                                proof {
                                    assert(lex_from(s@, i as int, m0) == Err::<
                                        Seq<TokenSpec>,
                                        LexErrorSpec,
                                    >(e@));
                                }
                                return Err(e);
                            },
                        }
                    },
                    Err(eop) => {
                        if lower_char(c) {
                            mode = match m {
                                LexMode::Ident(mut buf) => {
                                    buf.push(c);
                                    LexMode::Ident(buf)
                                },
                                other => {
                                    match Self::flush_mode(other, &mut out) {
                                        Ok(_) => {
                                            let mut buf: Vec<char> = Vec::new();
                                            buf.push(c);
                                            proof {
                                                assert(buf@ =~= seq![c]);
                                            }
                                            LexMode::Ident(buf)
                                        },
                                        Err(e) => {
                                            proof {
                                                assert(lex_from(s@, i as int, m0) == Err::<
                                                    Seq<TokenSpec>,
                                                    LexErrorSpec,
                                                >(e@));
                                            }
                                            return Err(e);
                                        },
                                    }
                                },
                            };
                            proof {
                                match m0 {
                                    LexModeSpec::Ident(b) => {
                                        assert(lex_from(s@, i as int, m0) == lex_from(
                                            s@,
                                            i + 1 as int,
                                            LexModeSpec::Ident(b.push(c)),
                                        ));
                                    },
                                    _ => {
                                        let ts = match flush_spec(m0) {
                                            Ok(ts) => ts,
                                            Err(_) => Seq::<TokenSpec>::empty(),
                                        };
                                        lemma_lex_compose_assoc(
                                            pre,
                                            ts,
                                            lex_from(s@, i + 1 as int, LexModeSpec::Ident(seq![c])),
                                        );
                                    },
                                }
                            }
                        } else {
                            proof {
                                assert(lex_from(s@, i as int, m0) == Err::<
                                    Seq<TokenSpec>,
                                    LexErrorSpec,
                                >(LexErrorSpec::UnknownOperator(c)));
                            }
                            return Err(eop);
                        }
                    },
                }
            }
            i = i + 1;
        }
        proof {
            assert(lex_from(s@, i as int, mode@) == flush_spec(mode@));
        }
        match Self::flush_mode(mode, &mut out) {
            Ok(_) => Ok(out),
            Err(e) => Err(e),
        }
    }

    /// Flushes a pending buffer into the output, emitting what
    /// [`flush_spec`] says.
    fn flush_mode(mode: LexMode, out: &mut Vec<Token>) -> (r: Result<(), LexError>)
        ensures
            match flush_spec(mode@) {
                Ok(ts) => r is Ok && token_views(final(out)@) == token_views(old(out)@) + ts,
                Err(e) => r matches Err(er) && er@ == e,
            },
    {
        match mode {
            LexMode::Idle => {
                proof {
                    assert(token_views(out@) =~= token_views(out@) + Seq::<TokenSpec>::empty());
                }
                Ok(())
            },
            LexMode::Num(buf) => {
                if check_numeral(&buf) {
                    let ghost b = buf@;
                    let ghost prev = token_views(out@);
                    out.push(Token::Number(buf));
                    proof {
                        assert(token_views(out@) =~= prev + seq![TokenSpec::Number(b)]);
                    }
                    Ok(())
                } else {
                    Err(LexError::MalformedNumber(buf))
                }
            },
            LexMode::Ident(buf) => {
                match Self::parse_function(&buf) {
                    Ok(t) => {
                        let ghost tv = t@;
                        let ghost prev = token_views(out@);
                        out.push(t);
                        proof {
                            assert(token_views(out@) =~= prev + seq![tv]);
                        }
                        Ok(())
                    },
                    Err(e) => Err(e),
                }
            },
        }
    }
}

} // verus!
