//! The infix-to-postfix converter: the shunting-yard algorithm.
//!
//! Tokens are read left to right. Numbers go straight to the output;
//! a left parenthesis goes onto the operator stack; a right parenthesis
//! pops the stack to the output until the matching left parenthesis, which
//! is discarded; an operator first pops every stacked operator of equal or
//! higher weight (equal precedence pops: grouping is left-to-right, for `^`
//! too) and then goes onto the stack. At the end the stack drains to the
//! output; a left parenthesis anywhere in it is unmatched. Both an
//! unmatched `)` during the scan and an unmatched `(` at the end fail with
//! `BadParenthesis`. The output never contains parenthesis tokens.

use vstd::prelude::*;
use crate::error::CalcError;
use crate::token::Token;
use crate::token::spec_op_weight;
use crate::token::toks_wf;

verus! {

/// Popping the operator stack to the output until a left parenthesis, which
/// is discarded; `BadParenthesis` when the stack runs out first.
pub open spec fn pop_until_lparen(stack: Seq<Token>, out: Seq<Token>) -> Result<
    (Seq<Token>, Seq<Token>),
    CalcError,
>
    decreases stack.len(),
{
    if stack.len() == 0 {
        Err(CalcError::BadParenthesis)
    } else if stack.last() is LeftParen {
        Ok((stack.drop_last(), out))
    } else {
        pop_until_lparen(stack.drop_last(), out.push(stack.last()))
    }
}

/// Popping every stacked operator of weight at least `w` to the output.
/// A left parenthesis (or an empty stack) stops the popping.
pub open spec fn pop_ge(stack: Seq<Token>, out: Seq<Token>, w: int) -> (Seq<Token>, Seq<Token>)
    decreases stack.len(),
{
    if stack.len() == 0 {
        (stack, out)
    } else {
        match stack.last() {
            Token::Operator(o2) => if spec_op_weight(o2) >= w {
                pop_ge(stack.drop_last(), out.push(stack.last()), w)
            } else {
                (stack, out)
            },
            _ => (stack, out),
        }
    }
}

/// Draining the operator stack to the output once the scan is over; a left
/// parenthesis left on it is an unmatched `(`.
pub open spec fn drain_stack(stack: Seq<Token>, out: Seq<Token>) -> Result<Seq<Token>, CalcError>
    decreases stack.len(),
{
    if stack.len() == 0 {
        Ok(out)
    } else if stack.last() is LeftParen {
        Err(CalcError::BadParenthesis)
    } else {
        drain_stack(stack.drop_last(), out.push(stack.last()))
    }
}

/// The left-to-right shunting-yard scan over the remaining tokens `ts`,
/// with the operator stack and the output built so far as its state.
pub open spec fn conv_rec(ts: Seq<Token>, stack: Seq<Token>, out: Seq<Token>) -> Result<
    Seq<Token>,
    CalcError,
>
    decreases ts.len(),
{
    if ts.len() == 0 {
        drain_stack(stack, out)
    } else {
        match ts[0] {
            Token::Number(_) => conv_rec(ts.drop_first(), stack, out.push(ts[0])),
            Token::LeftParen => conv_rec(ts.drop_first(), stack.push(ts[0]), out),
            Token::RightParen => match pop_until_lparen(stack, out) {
                Result::Err(e) => Err(e),
                Result::Ok(p) => conv_rec(ts.drop_first(), p.0, p.1),
            },
            Token::Operator(o) => {
                let p = pop_ge(stack, out, spec_op_weight(o));
                conv_rec(ts.drop_first(), p.0.push(ts[0]), p.1)
            },
        }
    }
}

/// What `convert` returns for the token sequence `ts`.
pub open spec fn spec_convert(ts: Seq<Token>) -> Result<Seq<Token>, CalcError> {
    conv_rec(ts, Seq::<Token>::empty(), Seq::<Token>::empty())
}

/// A parenthesis token, of either hand.
pub open spec fn is_paren(t: Token) -> bool {
    t is LeftParen || t is RightParen
}

/// How many parenthesis tokens the sequence holds.
pub open spec fn count_parens(ts: Seq<Token>) -> int
    decreases ts.len(),
{
    if ts.len() == 0 {
        0
    } else {
        (if is_paren(ts[0]) {
            1int
        } else {
            0int
        }) + count_parens(ts.drop_first())
    }
}

/// No parenthesis token appears in the sequence.
pub open spec fn no_parens(ts: Seq<Token>) -> bool {
    forall|k: int| 0 <= k < ts.len() ==> !is_paren(#[trigger] ts[k])
}

/// The operator stack only ever holds operators and left parentheses.
pub open spec fn stack_entries_ok(s: Seq<Token>) -> bool {
    forall|k: int| 0 <= k < s.len() ==> ((#[trigger] s[k]) is LeftParen || s[k] is Operator)
}

/// How many operators (non-parentheses) the stack holds.
pub open spec fn op_count(s: Seq<Token>) -> int
    decreases s.len(),
{
    if s.len() == 0 {
        0
    } else {
        (if s.last() is LeftParen {
            0int
        } else {
            1int
        }) + op_count(s.drop_last())
    }
}

/// Popping to a left parenthesis moves operators one for one: the operator
/// count plus the output length is preserved, and the output stays free of
/// parentheses.
proof fn lemma_pop_until_len(stack: Seq<Token>, out: Seq<Token>)
    requires
        stack_entries_ok(stack),
        no_parens(out),
    ensures
        (match pop_until_lparen(stack, out) {
            Result::Ok(p) => op_count(p.0) + p.1.len() == op_count(stack) + out.len()
                && stack_entries_ok(p.0) && no_parens(p.1),
            Result::Err(_) => true,
        }),
    decreases stack.len(),
{
    if stack.len() > 0 {
        assert(forall|k: int|
            0 <= k < stack.drop_last().len() ==> stack.drop_last()[k] == stack[k]);
        if stack.last() is LeftParen {
        } else {
            assert(no_parens(out.push(stack.last())));
            lemma_pop_until_len(stack.drop_last(), out.push(stack.last()));
        }
    }
}

/// Popping by weight moves operators one for one, too.
proof fn lemma_pop_ge_len(stack: Seq<Token>, out: Seq<Token>, w: int)
    requires
        stack_entries_ok(stack),
        no_parens(out),
    ensures
        op_count(pop_ge(stack, out, w).0) + pop_ge(stack, out, w).1.len() == op_count(stack)
            + out.len(),
        stack_entries_ok(pop_ge(stack, out, w).0),
        no_parens(pop_ge(stack, out, w).1),
    decreases stack.len(),
{
    if stack.len() > 0 {
        assert(forall|k: int|
            0 <= k < stack.drop_last().len() ==> stack.drop_last()[k] == stack[k]);
        match stack.last() {
            Token::Operator(o2) => {
                if spec_op_weight(o2) >= w {
                    assert(no_parens(out.push(stack.last())));
                    lemma_pop_ge_len(stack.drop_last(), out.push(stack.last()), w);
                }
            },
            _ => {},
        }
    }
}

/// Draining the stack appends exactly its operators to the output.
proof fn lemma_drain_len(stack: Seq<Token>, out: Seq<Token>)
    requires
        stack_entries_ok(stack),
        no_parens(out),
    ensures
        (match drain_stack(stack, out) {
            Result::Ok(res) => res.len() == op_count(stack) + out.len() && no_parens(res),
            Result::Err(_) => true,
        }),
    decreases stack.len(),
{
    if stack.len() > 0 && !(stack.last() is LeftParen) {
        assert(forall|k: int|
            0 <= k < stack.drop_last().len() ==> stack.drop_last()[k] == stack[k]);
        assert(no_parens(out.push(stack.last())));
        lemma_drain_len(stack.drop_last(), out.push(stack.last()));
    }
}

/// Along the whole scan, every non-parenthesis token ends up in the output
/// exactly once and every parenthesis is discarded.
proof fn lemma_conv_rec_len(ts: Seq<Token>, stack: Seq<Token>, out: Seq<Token>)
    requires
        stack_entries_ok(stack),
        no_parens(out),
    ensures
        (match conv_rec(ts, stack, out) {
            Result::Ok(res) => res.len() + count_parens(ts) == ts.len() + op_count(stack)
                + out.len() && no_parens(res),
            Result::Err(_) => true,
        }),
    decreases ts.len(),
{
    if ts.len() == 0 {
        lemma_drain_len(stack, out);
    } else {
        match ts[0] {
            Token::Number(_) => {
                assert(no_parens(out.push(ts[0])));
                lemma_conv_rec_len(ts.drop_first(), stack, out.push(ts[0]));
            },
            Token::LeftParen => {
                assert(stack.push(ts[0]).drop_last() =~= stack);
                assert(op_count(stack.push(ts[0])) == op_count(stack));
                lemma_conv_rec_len(ts.drop_first(), stack.push(ts[0]), out);
            },
            Token::RightParen => {
                lemma_pop_until_len(stack, out);
                match pop_until_lparen(stack, out) {
                    Result::Ok(p) => {
                        lemma_conv_rec_len(ts.drop_first(), p.0, p.1);
                    },
                    Result::Err(_) => {},
                }
            },
            Token::Operator(o) => {
                lemma_pop_ge_len(stack, out, spec_op_weight(o));
                let p = pop_ge(stack, out, spec_op_weight(o));
                assert(p.0.push(ts[0]).drop_last() =~= p.0);
                assert(op_count(p.0.push(ts[0])) == 1 + op_count(p.0));
                lemma_conv_rec_len(ts.drop_first(), p.0.push(ts[0]), p.1);
            },
        }
    }
}

/// Whenever the conversion of a token sequence succeeds, its postfix
/// output holds exactly the input tokens minus the parentheses: the output
/// length is the input length less the parenthesis-token count, and no
/// parenthesis token survives into the output.
pub proof fn lemma_convert_len(ts: Seq<Token>)
    ensures
        (match spec_convert(ts) {
            Result::Ok(res) => res.len() + count_parens(ts) == ts.len() && no_parens(res),
            Result::Err(_) => true,
        }),
{
    lemma_conv_rec_len(ts, Seq::<Token>::empty(), Seq::<Token>::empty());
}

/// Reorders an infix token sequence into postfix (Reverse Polish) order.
pub fn convert(tokens: &Vec<Token>) -> (r: Result<Vec<Token>, CalcError>)
    ensures
        (match r {
            Result::Ok(v) => spec_convert(tokens@) == Result::<Seq<Token>, CalcError>::Ok(v@) && (
            toks_wf(tokens@) ==> toks_wf(v@)),
            Result::Err(e) => spec_convert(tokens@) == Result::<Seq<Token>, CalcError>::Err(e),
        }),
{
    let n: usize = tokens.len();
    let mut out: Vec<Token> = Vec::new();
    let mut stack: Vec<Token> = Vec::new();
    let mut i: usize = 0;
    proof {
        assert(tokens@.skip(0) =~= tokens@);
    }
    while i < n
        invariant
            i <= n,
            n == tokens@.len(),
            spec_convert(tokens@) == conv_rec(tokens@.skip(i as int), stack@, out@),
            toks_wf(tokens@) ==> toks_wf(stack@) && toks_wf(out@),
        decreases n - i,
    {
        let t: Token = tokens[i];
        proof {
            assert(tokens@.skip(i as int)[0] == tokens@[i as int]);
            assert(tokens@.skip(i as int).drop_first() =~= tokens@.skip(i as int + 1));
        }
        match t {
            Token::Number(_) => {
                out.push(t);
            },
            Token::LeftParen => {
                stack.push(t);
            },
            Token::RightParen => {
                loop
                    invariant_except_break
                        spec_convert(tokens@) == (match pop_until_lparen(stack@, out@) {
                            Result::Err(e) => Result::<Seq<Token>, CalcError>::Err(e),
                            Result::Ok(p) => conv_rec(tokens@.skip(i as int + 1), p.0, p.1),
                        }),
                        toks_wf(tokens@) ==> toks_wf(stack@) && toks_wf(out@),
                    ensures
                        spec_convert(tokens@) == conv_rec(tokens@.skip(i as int + 1), stack@, out@),
                        toks_wf(tokens@) ==> toks_wf(stack@) && toks_wf(out@),
                    decreases stack@.len(),
                {
                    match stack.pop() {
                        Option::None => {
                            return Err(CalcError::BadParenthesis);
                        },
                        Option::Some(tp) => {
                            match tp {
                                Token::LeftParen => {
                                    break;
                                },
                                _ => {
                                    out.push(tp);
                                },
                            }
                        },
                    }
                }
            },
            Token::Operator(o) => {
                let w: i32 = o.weight();
                loop
                    invariant_except_break
                        spec_convert(tokens@) == ({
                            let p = pop_ge(stack@, out@, w as int);
                            conv_rec(tokens@.skip(i as int + 1), p.0.push(t), p.1)
                        }),
                        toks_wf(tokens@) ==> toks_wf(stack@) && toks_wf(out@),
                    ensures
                        spec_convert(tokens@) == conv_rec(
                            tokens@.skip(i as int + 1),
                            stack@.push(t),
                            out@,
                        ),
                        toks_wf(tokens@) ==> toks_wf(stack@) && toks_wf(out@),
                    decreases stack@.len(),
                {
                    if stack.len() == 0 {
                        break;
                    }
                    let tp: Token = stack[stack.len() - 1];
                    match tp {
                        Token::Operator(o2) => {
                            if o2.weight() >= w {
                                stack.pop();
                                out.push(tp);
                            } else {
                                break;
                            }
                        },
                        _ => {
                            break;
                        },
                    }
                }
                stack.push(t);
            },
        }
        i = i + 1;
    }
    proof {
        assert(tokens@.skip(n as int) =~= Seq::<Token>::empty());
    }
    loop
        invariant_except_break
            spec_convert(tokens@) == drain_stack(stack@, out@),
            toks_wf(tokens@) ==> toks_wf(stack@) && toks_wf(out@),
        ensures
            spec_convert(tokens@) == Result::<Seq<Token>, CalcError>::Ok(out@),
            toks_wf(tokens@) ==> toks_wf(out@),
        decreases stack@.len(),
    {
        match stack.pop() {
            Option::None => {
                break;
            },
            Option::Some(tp) => {
                match tp {
                    Token::LeftParen => {
                        return Err(CalcError::BadParenthesis);
                    },
                    _ => {
                        out.push(tp);
                    },
                }
            },
        }
    }
    Ok(out)
}

} // verus!
