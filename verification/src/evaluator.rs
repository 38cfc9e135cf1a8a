//! The postfix evaluator: consumes a postfix token sequence on a value
//! stack and yields a single number.
//!
//! A number is pushed. An operator pops one value `a`; if a second value is
//! below it and the operator supports binary arity, it pops that value `b`
//! and pushes `b <op> a` (the value pushed earlier is the left operand);
//! otherwise, if the operator supports unary arity, it pushes `<op> a`;
//! otherwise the arity cannot be satisfied and evaluation fails with
//! `BadExpression`, as it does for an operator on an empty stack and for a
//! parenthesis token. At the end exactly one value must remain: zero or
//! several residual values fail with `CalculationError`.

use vstd::prelude::*;
use crate::error::CalcError;
use crate::rational::Rat;
use crate::token::Token;
use crate::token::spec_call_double;
use crate::token::spec_call_single;
use crate::token::spec_op_is_binary;
use crate::token::spec_op_is_unary;
use crate::token::toks_wf;

verus! {

/// Every value on the stack is well-formed.
pub open spec fn stack_wf(s: Seq<Rat>) -> bool {
    forall|k: int| 0 <= k < s.len() ==> (#[trigger] s[k]).wf()
}

/// The left-to-right evaluation of the remaining postfix tokens `ts` on the
/// value stack built so far.
pub open spec fn eval_rec(ts: Seq<Token>, stack: Seq<Rat>) -> Result<Rat, CalcError>
    decreases ts.len(),
{
    if ts.len() == 0 {
        if stack.len() == 1 {
            Ok(stack[0])
        } else {
            Err(CalcError::CalculationError)
        }
    } else {
        match ts[0] {
            Token::Number(v) => eval_rec(ts.drop_first(), stack.push(v)),
            Token::Operator(o) => if stack.len() == 0 {
                Err(CalcError::BadExpression)
            } else {
                let a = stack.last();
                let s1 = stack.drop_last();
                if s1.len() > 0 && spec_op_is_binary(o) {
                    let b = s1.last();
                    match spec_call_double(o, b, a) {
                        Result::Err(e) => Err(e),
                        Result::Ok(v) => eval_rec(ts.drop_first(), s1.drop_last().push(v)),
                    }
                } else if spec_op_is_unary(o) {
                    match spec_call_single(o, a) {
                        Result::Err(e) => Err(e),
                        Result::Ok(v) => eval_rec(ts.drop_first(), s1.push(v)),
                    }
                } else {
                    Err(CalcError::BadExpression)
                }
            },
            _ => Err(CalcError::BadExpression),
        }
    }
}

/// What `evaluate_postfix` returns for the postfix token sequence `ts`.
pub open spec fn spec_evaluate(ts: Seq<Token>) -> Result<Rat, CalcError> {
    eval_rec(ts, Seq::<Rat>::empty())
}

/// Evaluates a postfix token sequence to a single exact rational.
pub fn evaluate_postfix(tokens: &Vec<Token>) -> (r: Result<Rat, CalcError>)
    requires
        toks_wf(tokens@),
    ensures
        r == spec_evaluate(tokens@),
        r is Ok ==> r->Ok_0.wf(),
{
    let n: usize = tokens.len();
    let mut stack: Vec<Rat> = Vec::new();
    let mut i: usize = 0;
    proof {
        assert(tokens@.skip(0) =~= tokens@);
    }
    while i < n
        invariant
            i <= n,
            n == tokens@.len(),
            toks_wf(tokens@),
            spec_evaluate(tokens@) == eval_rec(tokens@.skip(i as int), stack@),
            stack_wf(stack@),
        decreases n - i,
    {
        let t: Token = tokens[i];
        proof {
            assert(tokens@.skip(i as int)[0] == tokens@[i as int]);
            assert(tokens@.skip(i as int).drop_first() =~= tokens@.skip(i as int + 1));
        }
        match t {
            Token::Number(v) => {
                stack.push(v);
            },
            Token::Operator(o) => {
                match stack.pop() {
                    Option::None => {
                        return Err(CalcError::BadExpression);
                    },
                    Option::Some(a) => {
                        let l: usize = stack.len();
                        if l > 0 && o.is_binary() {
                            let b: Rat = stack[l - 1];
                            match o.call_double(b, a) {
                                Result::Err(e) => {
                                    return Err(e);
                                },
                                Result::Ok(v) => {
                                    stack.pop();
                                    stack.push(v);
                                },
                            }
                        } else if o.is_unary() {
                            match o.call_single(a) {
                                Result::Err(e) => {
                                    return Err(e);
                                },
                                Result::Ok(v) => {
                                    stack.push(v);
                                },
                            }
                        } else {
                            return Err(CalcError::BadExpression);
                        }
                    },
                }
            },
            _ => {
                return Err(CalcError::BadExpression);
            },
        }
        i = i + 1;
    }
    proof {
        assert(tokens@.skip(n as int) =~= Seq::<Token>::empty());
    }
    if stack.len() == 1 {
        Ok(stack[0])
    } else {
        Err(CalcError::CalculationError)
    }
}

} // verus!
