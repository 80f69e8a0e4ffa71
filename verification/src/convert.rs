//! The shunting-yard converter: one pass over an infix token sequence,
//! with an explicit operator stack, producing the same tokens in postfix
//! order. `(` and `,` act as stack barriers, so each nested function call
//! tracks its own argument boundaries; parentheses and commas themselves
//! are never emitted.

use vstd::prelude::*;

use crate::errors::ParseError;
use crate::token::{
    tok_associativity, tok_is_function, tok_is_operator, tok_is_paren, tok_precedence,
    token_views, Token, TokenSpec,
};

verus! {

/// Everything the converter ever pushes on the operator stack:
/// functions, `(`, and operators.
pub open spec fn stack_wf(s: Seq<TokenSpec>) -> bool {
    forall|k: int|
        0 <= k < s.len() ==> tok_is_function(#[trigger] s[k]) || tok_is_operator(s[k]) || s[k]
            == TokenSpec::LParen
}

/// Prepends already-emitted output to the outcome of the rest of the
/// conversion.
pub open spec fn shunt_compose(
    prefix: Seq<TokenSpec>,
    r: Result<Seq<TokenSpec>, ParseError>,
) -> Result<Seq<TokenSpec>, ParseError> {
    match r {
        Ok(ts) => Ok(prefix + ts),
        Err(e) => Err(e),
    }
}

pub proof fn lemma_shunt_compose_assoc(
    a: Seq<TokenSpec>,
    b: Seq<TokenSpec>,
    r: Result<Seq<TokenSpec>, ParseError>,
)
    ensures
        shunt_compose(a, shunt_compose(b, r)) == shunt_compose(a + b, r),
{
    match r {
        Ok(ts) => {
            assert(a + (b + ts) =~= (a + b) + ts);
        },
        Err(_) => {},
    }
}

/// Prepends already-popped tokens to the outcome of the rest of a pop.
pub open spec fn pop_compose(
    prefix: Seq<TokenSpec>,
    r: Option<(Seq<TokenSpec>, Seq<TokenSpec>)>,
) -> Option<(Seq<TokenSpec>, Seq<TokenSpec>)> {
    match r {
        None => None,
        Some((o, s)) => Some((prefix + o, s)),
    }
}

pub proof fn lemma_pop_compose_empty(r: Option<(Seq<TokenSpec>, Seq<TokenSpec>)>)
    ensures
        pop_compose(Seq::<TokenSpec>::empty(), r) == r,
{
    match r {
        None => {},
        Some((o, s)) => {
            assert(Seq::<TokenSpec>::empty() + o =~= o);
        },
    }
}

pub proof fn lemma_pop_compose_assoc(
    a: Seq<TokenSpec>,
    b: Seq<TokenSpec>,
    r: Option<(Seq<TokenSpec>, Seq<TokenSpec>)>,
)
    ensures
        pop_compose(a, pop_compose(b, r)) == pop_compose(a + b, r),
{
    match r {
        None => {},
        Some((o, s)) => {
            assert(a + (b + o) =~= (a + b) + o);
        },
    }
}

/// What a `,` pops: everything down to, but not including, the nearest
/// `(` or `,`; `None` when the stack empties first, which means the comma
/// has no enclosing group. Yields the popped tokens in pop order and the
/// remaining stack.
pub open spec fn comma_pop_spec(stack: Seq<TokenSpec>) -> Option<
    (Seq<TokenSpec>, Seq<TokenSpec>),
>
    decreases stack.len(),
{
    if stack.len() == 0 {
        None
    } else if stack.last() == TokenSpec::LParen || stack.last() == TokenSpec::Comma {
        Some((Seq::<TokenSpec>::empty(), stack))
    } else {
        pop_compose(seq![stack.last()], comma_pop_spec(stack.drop_last()))
    }
}

/// What a `)` pops: everything down to the matching `(`, which is popped
/// and discarded; `None` when the stack empties without one.
pub open spec fn rparen_pop_spec(stack: Seq<TokenSpec>) -> Option<
    (Seq<TokenSpec>, Seq<TokenSpec>),
>
    decreases stack.len(),
{
    if stack.len() == 0 {
        None
    } else if stack.last() == TokenSpec::LParen {
        Some((Seq::<TokenSpec>::empty(), stack.drop_last()))
    } else {
        pop_compose(seq![stack.last()], rparen_pop_spec(stack.drop_last()))
    }
}

/// Whether an incoming operator `op` pops the stack's top: the top is not
/// a parenthesis and its precedence is at least `op`'s, except that a
/// right-associative `op` does not pop a top of equal precedence.
pub open spec fn op_should_pop(top: TokenSpec, op: TokenSpec) -> bool {
    &&& !tok_is_paren(top)
    &&& tok_precedence(top).unwrap() >= tok_precedence(op).unwrap()
    &&& !(tok_associativity(op).unwrap() && tok_precedence(top).unwrap() == tok_precedence(
        op,
    ).unwrap())
}

/// What an incoming operator pops before it is pushed itself.
pub open spec fn op_pop_spec(stack: Seq<TokenSpec>, op: TokenSpec) -> (Seq<TokenSpec>, Seq<
    TokenSpec,
>)
    decreases stack.len(),
{
    if stack.len() == 0 {
        (Seq::<TokenSpec>::empty(), stack)
    } else if op_should_pop(stack.last(), op) {
        let (o, s) = op_pop_spec(stack.drop_last(), op);
        (seq![stack.last()] + o, s)
    } else {
        (Seq::<TokenSpec>::empty(), stack)
    }
}

/// The final drain: every remaining stack entry goes to the output in pop
/// order; a `(` still on the stack is an unbalanced group.
pub open spec fn drain_spec(stack: Seq<TokenSpec>) -> Result<Seq<TokenSpec>, ParseError>
    decreases stack.len(),
{
    if stack.len() == 0 {
        Ok(Seq::<TokenSpec>::empty())
    } else if stack.last() == TokenSpec::LParen {
        Err(ParseError::UnbalancedGrouping)
    } else {
        match drain_spec(stack.drop_last()) {
            Ok(rest) => Ok(seq![stack.last()] + rest),
            Err(e) => Err(e),
        }
    }
}

/// The conversion of `input` from position `i` with the given operator
/// stack, dispatching in priority order: function, comma, number, `(`,
/// `)`, operator.
pub open spec fn shunt_from(input: Seq<TokenSpec>, i: int, stack: Seq<TokenSpec>) -> Result<
    Seq<TokenSpec>,
    ParseError,
>
    decreases input.len() - i,
{
    if i < 0 || i >= input.len() {
        drain_spec(stack)
    } else {
        let t = input[i];
        if tok_is_function(t) {
            shunt_from(input, i + 1, stack.push(t))
        } else if t == TokenSpec::Comma {
            match comma_pop_spec(stack) {
                None => Err(ParseError::UnbalancedGrouping),
                Some((o, s)) => shunt_compose(o, shunt_from(input, i + 1, s)),
            }
        } else if t matches TokenSpec::Number(_) {
            shunt_compose(seq![t], shunt_from(input, i + 1, stack))
        } else if t == TokenSpec::LParen {
            shunt_from(input, i + 1, stack.push(t))
        } else if t == TokenSpec::RParen {
            match rparen_pop_spec(stack) {
                None => Err(ParseError::UnbalancedGrouping),
                Some((o, s)) => shunt_compose(o, shunt_from(input, i + 1, s)),
            }
        } else {
            let (o, s) = op_pop_spec(stack, t);
            shunt_compose(o, shunt_from(input, i + 1, s.push(t)))
        }
    }
}

/// The whole conversion of an infix token sequence.
pub open spec fn shunt_spec(input: Seq<TokenSpec>) -> Result<Seq<TokenSpec>, ParseError> {
    shunt_from(input, 0, Seq::<TokenSpec>::empty())
}

/// A stack that only lost entries from its top keeps its well-formedness.
pub proof fn lemma_wf_prefix(a: Seq<Token>, b: Seq<Token>)
    requires
        stack_wf(token_views(a)),
        b.len() <= a.len(),
        forall|k: int| 0 <= k < b.len() ==> b[k] == a[k],
    ensures
        stack_wf(token_views(b)),
{
    assert forall|k: int| 0 <= k < token_views(b).len() implies tok_is_function(
        #[trigger] token_views(b)[k],
    ) || tok_is_operator(token_views(b)[k]) || token_views(b)[k] == TokenSpec::LParen by {
        assert(token_views(b)[k] == b[k]@);
        assert(token_views(a)[k] == a[k]@);
        assert(tok_is_function(token_views(a)[k]) || tok_is_operator(token_views(a)[k])
            || token_views(a)[k] == TokenSpec::LParen);
    }
}

fn is_comma_tok(t: &Token) -> (r: bool)
    ensures
        r == (t@ == TokenSpec::Comma),
{
    match t {
        Token::Comma => true,
        _ => false,
    }
}

fn is_number_tok(t: &Token) -> (r: bool)
    ensures
        r == (t@ matches TokenSpec::Number(_)),
{
    match t {
        Token::Number(_) => true,
        _ => false,
    }
}

fn is_lparen_tok(t: &Token) -> (r: bool)
    ensures
        r == (t@ == TokenSpec::LParen),
{
    match t {
        Token::LParen => true,
        _ => false,
    }
}

fn is_rparen_tok(t: &Token) -> (r: bool)
    ensures
        r == (t@ == TokenSpec::RParen),
{
    match t {
        Token::RParen => true,
        _ => false,
    }
}

fn comma_barrier(t: &Token) -> (r: bool)
    ensures
        r == (t@ == TokenSpec::LParen || t@ == TokenSpec::Comma),
{
    match t {
        Token::LParen | Token::Comma => true,
        _ => false,
    }
}

/// Pops for a `,` as [`comma_pop_spec`] says, moving the popped tokens to
/// `out`; `false` when the stack empties without a barrier.
fn pop_for_comma(stack: &mut Vec<Token>, out: &mut Vec<Token>) -> (ok: bool)
    ensures
        (match comma_pop_spec(token_views(old(stack)@)) {
            None => !ok,
            Some((emit, rest)) => ok && token_views(final(out)@) == token_views(old(out)@) + emit
                && token_views(final(stack)@) == rest,
        }),
        final(stack)@.len() <= old(stack)@.len(),
        forall|k: int| 0 <= k < final(stack)@.len() ==> final(stack)@[k] == old(stack)@[k],
{
    let ghost mut emitted: Seq<TokenSpec> = Seq::<TokenSpec>::empty();
    proof {
        lemma_pop_compose_empty(comma_pop_spec(token_views(stack@)));
        assert(token_views(out@) =~= token_views(out@) + emitted);
    }
    loop
        invariant
            token_views(out@) == token_views(old(out)@) + emitted,
            comma_pop_spec(token_views(old(stack)@)) == pop_compose(
                emitted,
                comma_pop_spec(token_views(stack@)),
            ),
            stack@.len() <= old(stack)@.len(),
            forall|k: int| 0 <= k < stack@.len() ==> stack@[k] == old(stack)@[k],
        decreases stack@.len(),
    {
        if stack.len() == 0 {
            return false;
        }
        if comma_barrier(&stack[stack.len() - 1]) {
            proof {
                assert(emitted + Seq::<TokenSpec>::empty() =~= emitted);
            }
            return true;
        }
        let ghost prev = token_views(stack@);
        let ghost e0 = emitted;
        let t = stack.pop().unwrap();
        let ghost tv = t@;
        out.push(t);
        proof {
            assert(token_views(stack@) =~= prev.drop_last());
            assert(comma_pop_spec(prev) == pop_compose(seq![tv], comma_pop_spec(prev.drop_last())));
            lemma_pop_compose_assoc(e0, seq![tv], comma_pop_spec(prev.drop_last()));
            emitted = e0 + seq![tv];
            assert(token_views(out@) =~= (token_views(old(out)@) + e0) + seq![tv]);
            assert((token_views(old(out)@) + e0) + seq![tv] =~= token_views(old(out)@) + emitted);
        }
    }
}

/// Pops for a `)` as [`rparen_pop_spec`] says; the matching `(` is popped
/// and discarded; `false` when the stack has no `(`.
fn pop_for_rparen(stack: &mut Vec<Token>, out: &mut Vec<Token>) -> (ok: bool)
    ensures
        (match rparen_pop_spec(token_views(old(stack)@)) {
            None => !ok,
            Some((emit, rest)) => ok && token_views(final(out)@) == token_views(old(out)@) + emit
                && token_views(final(stack)@) == rest,
        }),
        final(stack)@.len() <= old(stack)@.len(),
        forall|k: int| 0 <= k < final(stack)@.len() ==> final(stack)@[k] == old(stack)@[k],
{
    let ghost mut emitted: Seq<TokenSpec> = Seq::<TokenSpec>::empty();
    proof {
        lemma_pop_compose_empty(rparen_pop_spec(token_views(stack@)));
        assert(token_views(out@) =~= token_views(out@) + emitted);
    }
    loop
        invariant
            token_views(out@) == token_views(old(out)@) + emitted,
            rparen_pop_spec(token_views(old(stack)@)) == pop_compose(
                emitted,
                rparen_pop_spec(token_views(stack@)),
            ),
            stack@.len() <= old(stack)@.len(),
            forall|k: int| 0 <= k < stack@.len() ==> stack@[k] == old(stack)@[k],
        decreases stack@.len(),
    {
        if stack.len() == 0 {
            return false;
        }
        let ghost prev = token_views(stack@);
        if is_lparen_tok(&stack[stack.len() - 1]) {
            let _ = stack.pop();
            proof {
                assert(token_views(stack@) =~= prev.drop_last());
                assert(emitted + Seq::<TokenSpec>::empty() =~= emitted);
            }
            return true;
        }
        let ghost e0 = emitted;
        let t = stack.pop().unwrap();
        let ghost tv = t@;
        out.push(t);
        proof {
            assert(token_views(stack@) =~= prev.drop_last());
            assert(rparen_pop_spec(prev) == pop_compose(
                seq![tv],
                rparen_pop_spec(prev.drop_last()),
            ));
            lemma_pop_compose_assoc(e0, seq![tv], rparen_pop_spec(prev.drop_last()));
            emitted = e0 + seq![tv];
            assert(token_views(out@) =~= (token_views(old(out)@) + e0) + seq![tv]);
            assert((token_views(old(out)@) + e0) + seq![tv] =~= token_views(old(out)@) + emitted);
        }
    }
}

/// Pops for an incoming operator as [`op_pop_spec`] says.
fn pop_for_op(stack: &mut Vec<Token>, out: &mut Vec<Token>, op: &Token)
    requires
        stack_wf(token_views(old(stack)@)),
        tok_is_operator(op@),
    ensures
        ({
            let (emit, rest) = op_pop_spec(token_views(old(stack)@), op@);
            token_views(final(out)@) == token_views(old(out)@) + emit && token_views(final(stack)@)
                == rest
        }),
        final(stack)@.len() <= old(stack)@.len(),
        forall|k: int| 0 <= k < final(stack)@.len() ==> final(stack)@[k] == old(stack)@[k],
{
    let ghost mut emitted: Seq<TokenSpec> = Seq::<TokenSpec>::empty();
    proof {
        assert(token_views(out@) =~= token_views(out@) + emitted);
    }
    loop
        invariant
            stack_wf(token_views(stack@)),
            tok_is_operator(op@),
            token_views(out@) == token_views(old(out)@) + emitted,
            ({
                let (o, s) = op_pop_spec(token_views(old(stack)@), op@);
                let (o2, s2) = op_pop_spec(token_views(stack@), op@);
                o == emitted + o2 && s == s2
            }),
            stack@.len() <= old(stack)@.len(),
            forall|k: int| 0 <= k < stack@.len() ==> stack@[k] == old(stack)@[k],
        decreases stack@.len(),
    {
        if stack.len() == 0 {
            proof {
                assert(emitted + Seq::<TokenSpec>::empty() =~= emitted);
            }
            return ;
        }
        let ghost prev = token_views(stack@);
        let top = &stack[stack.len() - 1];
        let should = if top.is_paren() {
            false
        } else {
            let tp = top.precedence().unwrap();
            let opp = op.precedence().unwrap();
            let opr = op.associativity().unwrap();
            tp >= opp && !(opr && tp == opp)
        };
        if !should {
            proof {
                assert(!op_should_pop(prev.last(), op@));
                assert(emitted + Seq::<TokenSpec>::empty() =~= emitted);
            }
            return ;
        }
        let ghost e0 = emitted;
        let t = stack.pop().unwrap();
        let ghost tv = t@;
        out.push(t);
        proof {
            assert(token_views(stack@) =~= prev.drop_last());
            assert(op_should_pop(tv, op@));
            emitted = e0 + seq![tv];
            assert(token_views(out@) =~= (token_views(old(out)@) + e0) + seq![tv]);
            assert((token_views(old(out)@) + e0) + seq![tv] =~= token_views(old(out)@) + emitted);
            let (o2, s2) = op_pop_spec(prev.drop_last(), op@);
            assert(e0 + (seq![tv] + o2) =~= (e0 + seq![tv]) + o2);
        }
    }
}

/// Converts an infix token sequence to postfix order, exactly as
/// [`shunt_spec`] reads it; the only failure is an unbalanced group.
pub fn convert(infix: &Vec<Token>) -> (r: Result<Vec<Token>, ParseError>)
    ensures
        (match r {
            Ok(post) => shunt_spec(token_views(infix@)) == Ok::<Seq<TokenSpec>, ParseError>(
                token_views(post@),
            ),
            Err(e) => shunt_spec(token_views(infix@)) == Err::<Seq<TokenSpec>, ParseError>(e),
        }),
{
    let ghost iv = token_views(infix@);
    let mut stack: Vec<Token> = Vec::new();
    let mut out: Vec<Token> = Vec::new();
    proof {
        assert(token_views(stack@) =~= Seq::<TokenSpec>::empty());
        assert(token_views(out@) =~= Seq::<TokenSpec>::empty());
    }
    let mut i: usize = 0;
    while i < infix.len()
        invariant
            i <= infix@.len(),
            iv == token_views(infix@),
            stack_wf(token_views(stack@)),
            shunt_spec(iv) == shunt_compose(
                token_views(out@),
                shunt_from(iv, i as int, token_views(stack@)),
            ),
        decreases infix@.len() - i,
    {
        let ghost pre = token_views(out@);
        let ghost st0 = token_views(stack@);
        let t = &infix[i];
        let ghost tv = t@;
        proof {
            assert(iv[i as int] == tv);
        }
        if t.is_function() {
            let c = t.clone();
            stack.push(c);
            proof {
                assert(token_views(stack@) =~= st0.push(tv));
            }
        } else if is_comma_tok(t) {
            let ghost sv0 = stack@;
            if !pop_for_comma(&mut stack, &mut out) {
                proof {
                    assert(shunt_from(iv, i as int, st0) == Err::<Seq<TokenSpec>, ParseError>(
                        ParseError::UnbalancedGrouping,
                    ));
                }
                return Err(ParseError::UnbalancedGrouping);
            }
            proof {
                lemma_wf_prefix(sv0, stack@);
                let (emit, rest) = comma_pop_spec(st0).unwrap();
                lemma_shunt_compose_assoc(pre, emit, shunt_from(iv, i + 1 as int, rest));
            }
        } else if is_number_tok(t) {
            let c = t.clone();
            out.push(c);
            proof {
                lemma_shunt_compose_assoc(pre, seq![tv], shunt_from(iv, i + 1 as int, st0));
                assert(token_views(out@) =~= pre + seq![tv]);
            }
        } else if is_lparen_tok(t) {
            let c = t.clone();
            stack.push(c);
            proof {
                assert(token_views(stack@) =~= st0.push(tv));
            }
        } else if is_rparen_tok(t) {
            let ghost sv0 = stack@;
            if !pop_for_rparen(&mut stack, &mut out) {
                proof {
                    assert(shunt_from(iv, i as int, st0) == Err::<Seq<TokenSpec>, ParseError>(
                        ParseError::UnbalancedGrouping,
                    ));
                }
                return Err(ParseError::UnbalancedGrouping);
            }
            proof {
                lemma_wf_prefix(sv0, stack@);
                let (emit, rest) = rparen_pop_spec(st0).unwrap();
                lemma_shunt_compose_assoc(pre, emit, shunt_from(iv, i + 1 as int, rest));
            }
        } else {
            proof {
                assert(tok_is_operator(tv));
            }
            let ghost sv0 = stack@;
            pop_for_op(&mut stack, &mut out, t);
            proof {
                lemma_wf_prefix(sv0, stack@);
            }
            let c = t.clone();
            stack.push(c);
            proof {
                let (emit, rest) = op_pop_spec(st0, tv);
                assert(token_views(stack@) =~= rest.push(tv));
                lemma_shunt_compose_assoc(pre, emit, shunt_from(iv, i + 1 as int, rest.push(tv)));
            }
        }
        i = i + 1;
    }
    proof {
        assert(shunt_from(iv, i as int, token_views(stack@)) == drain_spec(token_views(stack@)));
    }
    let ghost mut emitted: Seq<TokenSpec> = Seq::<TokenSpec>::empty();
    let ghost base = token_views(out@);
    proof {
        assert(base =~= base + emitted);
    }
    while stack.len() > 0
        invariant
            iv == token_views(infix@),
            stack_wf(token_views(stack@)),
            token_views(out@) == base + emitted,
            shunt_spec(iv) == shunt_compose(base, drain_spec_composed(emitted, token_views(stack@))),
        decreases stack@.len(),
    {
        let ghost prev = token_views(stack@);
        let ghost e0 = emitted;
        let t = stack.pop().unwrap();
        let ghost tv = t@;
        if t.is_paren() {
            proof {
                assert(tv == TokenSpec::LParen);
                assert(drain_spec(prev) == Err::<Seq<TokenSpec>, ParseError>(
                    ParseError::UnbalancedGrouping,
                ));
            }
            return Err(ParseError::UnbalancedGrouping);
        }
        out.push(t);
        proof {
            assert(token_views(stack@) =~= prev.drop_last());
            emitted = e0 + seq![tv];
            assert(token_views(out@) =~= (base + e0) + seq![tv]);
            assert((base + e0) + seq![tv] =~= base + emitted);
            match drain_spec(prev.drop_last()) {
                Ok(rest) => {
                    assert(e0 + (seq![tv] + rest) =~= (e0 + seq![tv]) + rest);
                },
                Err(_) => {},
            }
        }
    }
    proof {
        assert(base + (emitted + Seq::<TokenSpec>::empty()) =~= base + emitted);
    }
    Ok(out)
}

/// No parenthesis and no comma anywhere in the sequence.
pub open spec fn no_grouping(s: Seq<TokenSpec>) -> bool {
    forall|k: int| 0 <= k < s.len() ==> !tok_is_paren(#[trigger] s[k]) && s[k] != TokenSpec::Comma
}

proof fn lemma_no_grouping_concat(a: Seq<TokenSpec>, b: Seq<TokenSpec>)
    requires
        no_grouping(a),
        no_grouping(b),
    ensures
        no_grouping(a + b),
{
    assert forall|k: int| 0 <= k < (a + b).len() implies !tok_is_paren(#[trigger] (a + b)[k]) && (a
        + b)[k] != TokenSpec::Comma by {
        if k < a.len() {
            assert((a + b)[k] == a[k]);
        } else {
            assert((a + b)[k] == b[k - a.len()]);
        }
    }
}

proof fn lemma_wf_drop_last(s: Seq<TokenSpec>)
    requires
        stack_wf(s),
        s.len() > 0,
    ensures
        stack_wf(s.drop_last()),
{
    assert forall|k: int| 0 <= k < s.drop_last().len() implies tok_is_function(
        #[trigger] s.drop_last()[k],
    ) || tok_is_operator(s.drop_last()[k]) || s.drop_last()[k] == TokenSpec::LParen by {
        assert(s.drop_last()[k] == s[k]);
    }
}

proof fn lemma_wf_push(s: Seq<TokenSpec>, t: TokenSpec)
    requires
        stack_wf(s),
        tok_is_function(t) || tok_is_operator(t) || t == TokenSpec::LParen,
    ensures
        stack_wf(s.push(t)),
{
    assert forall|k: int| 0 <= k < s.push(t).len() implies tok_is_function(
        #[trigger] s.push(t)[k],
    ) || tok_is_operator(s.push(t)[k]) || s.push(t)[k] == TokenSpec::LParen by {
        if k < s.len() {
            assert(s.push(t)[k] == s[k]);
        } else {
            assert(s.push(t)[k] == t);
        }
    }
}

proof fn lemma_comma_pop_emit(stack: Seq<TokenSpec>)
    requires
        stack_wf(stack),
    ensures
        comma_pop_spec(stack) matches Some((o, rest)) ==> no_grouping(o) && stack_wf(rest),
    decreases stack.len(),
{
    if stack.len() == 0 {
    } else if stack.last() == TokenSpec::LParen || stack.last() == TokenSpec::Comma {
        assert(no_grouping(Seq::<TokenSpec>::empty()));
    } else {
        lemma_wf_drop_last(stack);
        lemma_comma_pop_emit(stack.drop_last());
        match comma_pop_spec(stack.drop_last()) {
            None => {},
            Some((o, rest)) => {
                assert(tok_is_function(stack[stack.len() - 1]) || tok_is_operator(
                    stack[stack.len() - 1],
                ) || stack[stack.len() - 1] == TokenSpec::LParen);
                assert(seq![stack.last()][0] == stack.last());
                assert(no_grouping(seq![stack.last()]));
                lemma_no_grouping_concat(seq![stack.last()], o);
            },
        }
    }
}

proof fn lemma_rparen_pop_emit(stack: Seq<TokenSpec>)
    requires
        stack_wf(stack),
    ensures
        rparen_pop_spec(stack) matches Some((o, rest)) ==> no_grouping(o) && stack_wf(rest),
    decreases stack.len(),
{
    if stack.len() == 0 {
    } else if stack.last() == TokenSpec::LParen {
        lemma_wf_drop_last(stack);
        assert(no_grouping(Seq::<TokenSpec>::empty()));
    } else {
        lemma_wf_drop_last(stack);
        lemma_rparen_pop_emit(stack.drop_last());
        match rparen_pop_spec(stack.drop_last()) {
            None => {},
            Some((o, rest)) => {
                assert(tok_is_function(stack[stack.len() - 1]) || tok_is_operator(
                    stack[stack.len() - 1],
                ) || stack[stack.len() - 1] == TokenSpec::LParen);
                assert(seq![stack.last()][0] == stack.last());
                assert(no_grouping(seq![stack.last()]));
                lemma_no_grouping_concat(seq![stack.last()], o);
            },
        }
    }
}

proof fn lemma_op_pop_emit(stack: Seq<TokenSpec>, op: TokenSpec)
    requires
        stack_wf(stack),
    ensures
        ({
            let (o, rest) = op_pop_spec(stack, op);
            no_grouping(o) && stack_wf(rest)
        }),
    decreases stack.len(),
{
    if stack.len() == 0 {
        assert(no_grouping(Seq::<TokenSpec>::empty()));
    } else if op_should_pop(stack.last(), op) {
        lemma_wf_drop_last(stack);
        lemma_op_pop_emit(stack.drop_last(), op);
        let (o, rest) = op_pop_spec(stack.drop_last(), op);
        assert(tok_is_function(stack[stack.len() - 1]) || tok_is_operator(stack[stack.len() - 1])
            || stack[stack.len() - 1] == TokenSpec::LParen);
        assert(seq![stack.last()][0] == stack.last());
        assert(no_grouping(seq![stack.last()]));
        lemma_no_grouping_concat(seq![stack.last()], o);
    } else {
        assert(no_grouping(Seq::<TokenSpec>::empty()));
    }
}

proof fn lemma_drain_emit(stack: Seq<TokenSpec>)
    requires
        stack_wf(stack),
    ensures
        drain_spec(stack) matches Ok(o) ==> no_grouping(o),
    decreases stack.len(),
{
    if stack.len() == 0 {
        assert(no_grouping(Seq::<TokenSpec>::empty()));
    } else if stack.last() == TokenSpec::LParen {
    } else {
        lemma_wf_drop_last(stack);
        lemma_drain_emit(stack.drop_last());
        match drain_spec(stack.drop_last()) {
            Ok(o) => {
                assert(tok_is_function(stack[stack.len() - 1]) || tok_is_operator(
                    stack[stack.len() - 1],
                ) || stack[stack.len() - 1] == TokenSpec::LParen);
                assert(seq![stack.last()][0] == stack.last());
                assert(no_grouping(seq![stack.last()]));
                lemma_no_grouping_concat(seq![stack.last()], o);
            },
            Err(_) => {},
        }
    }
}

proof fn lemma_shunt_from_emit(input: Seq<TokenSpec>, i: int, stack: Seq<TokenSpec>)
    requires
        stack_wf(stack),
    ensures
        shunt_from(input, i, stack) matches Ok(o) ==> no_grouping(o),
    decreases input.len() - i,
{
    if i < 0 || i >= input.len() {
        lemma_drain_emit(stack);
    } else {
        let t = input[i];
        if tok_is_function(t) {
            lemma_wf_push(stack, t);
            lemma_shunt_from_emit(input, i + 1, stack.push(t));
        } else if t == TokenSpec::Comma {
            lemma_comma_pop_emit(stack);
            match comma_pop_spec(stack) {
                None => {},
                Some((o, rest)) => {
                    lemma_shunt_from_emit(input, i + 1, rest);
                    match shunt_from(input, i + 1, rest) {
                        Ok(o2) => {
                            lemma_no_grouping_concat(o, o2);
                        },
                        Err(_) => {},
                    }
                },
            }
        } else if t matches TokenSpec::Number(_) {
            lemma_shunt_from_emit(input, i + 1, stack);
            match shunt_from(input, i + 1, stack) {
                Ok(o2) => {
                    assert(seq![t][0] == t);
                    assert(no_grouping(seq![t]));
                    lemma_no_grouping_concat(seq![t], o2);
                },
                Err(_) => {},
            }
        } else if t == TokenSpec::LParen {
            lemma_wf_push(stack, t);
            lemma_shunt_from_emit(input, i + 1, stack.push(t));
        } else if t == TokenSpec::RParen {
            lemma_rparen_pop_emit(stack);
            match rparen_pop_spec(stack) {
                None => {},
                Some((o, rest)) => {
                    lemma_shunt_from_emit(input, i + 1, rest);
                    match shunt_from(input, i + 1, rest) {
                        Ok(o2) => {
                            lemma_no_grouping_concat(o, o2);
                        },
                        Err(_) => {},
                    }
                },
            }
        } else {
            lemma_op_pop_emit(stack, t);
            let (o, rest) = op_pop_spec(stack, t);
            lemma_wf_push(rest, t);
            lemma_shunt_from_emit(input, i + 1, rest.push(t));
            match shunt_from(input, i + 1, rest.push(t)) {
                Ok(o2) => {
                    lemma_no_grouping_concat(o, o2);
                },
                Err(_) => {},
            }
        }
    }
}

/// Law: a successful conversion consumes every parenthesis and every
/// comma — the postfix sequence holds none of them, so the evaluator
/// never meets a grouping token on converted input.
pub proof fn lemma_converted_no_grouping(input: Seq<TokenSpec>, out: Seq<TokenSpec>)
    requires
        shunt_spec(input) == Ok::<Seq<TokenSpec>, ParseError>(out),
    ensures
        no_grouping(out),
{
    assert(stack_wf(Seq::<TokenSpec>::empty()));
    lemma_shunt_from_emit(input, 0, Seq::<TokenSpec>::empty());
}

/// The drain outcome with `prefix` already emitted.
pub open spec fn drain_spec_composed(
    prefix: Seq<TokenSpec>,
    stack: Seq<TokenSpec>,
) -> Result<Seq<TokenSpec>, ParseError> {
    match drain_spec(stack) {
        Ok(rest) => Ok(prefix + rest),
        Err(e) => Err(e),
    }
}

} // verus!
