//! The token alphabet of the engine and the semantics of its operators.
//!
//! One tagged-variant `Token` / `Op` pair carries precedence and arity as
//! pure functions of the tag.

use vstd::prelude::*;
use crate::error::CalcError;
use crate::rational::Rat;
use vstd::arithmetic::div_mod::lemma_div_nonincreasing;
use crate::rational::int_abs;
use crate::rational::lemma_pow_fold_bounds;
use crate::rational::lemma_pow_fold_one;
use crate::rational::lemma_pow_fold_neg_one;
use crate::rational::lemma_pow_fold_nonzero;
use crate::rational::spec_factorial_rat;
use crate::rational::spec_norm;
use crate::rational::spec_add_rat;
use crate::rational::spec_sub_rat;
use crate::rational::spec_mul_rat;
use crate::rational::spec_div_rat;
use crate::rational::spec_rem_rat;
use crate::rational::spec_pow_fold;

verus! {

/// An arithmetic operator. `Plus` and `Minus` act in both arities (unary
/// plus is the identity, unary minus negates); `Factorial` is unary-only;
/// the rest are binary-only.
#[derive(Debug, Clone, Copy, PartialEq, Eq, Structural)]
pub enum Op {
    Plus,
    Minus,
    Factorial,
    Multiply,
    Divide,
    Power,
    Modulo,
}

/// One typed symbol of an expression.
#[derive(Debug, Clone, Copy, PartialEq, Eq, Structural)]
pub enum Token {
    Number(Rat),
    LeftParen,
    RightParen,
    Operator(Op),
}

/// A token is well-formed when the number it may carry is.
pub open spec fn token_wf(t: Token) -> bool {
    match t {
        Token::Number(r) => r.wf(),
        _ => true,
    }
}

/// Every token of the sequence is well-formed.
pub open spec fn toks_wf(s: Seq<Token>) -> bool {
    forall|k: int| 0 <= k < s.len() ==> token_wf(#[trigger] s[k])
}

/// The precedence weight of an operator: `+ -` bind loosest, `* / %` next,
/// `^ !` tightest. (A left parenthesis on the operator stack counts as
/// weight zero: the converter never pops across it.)
pub open spec fn spec_op_weight(o: Op) -> int {
    match o {
        Op::Plus => 1,
        Op::Minus => 1,
        Op::Factorial => 3,
        Op::Multiply => 2,
        Op::Divide => 2,
        Op::Power => 3,
        Op::Modulo => 2,
    }
}

/// Whether the operator can be applied to one operand.
pub open spec fn spec_op_is_unary(o: Op) -> bool {
    match o {
        Op::Plus => true,
        Op::Minus => true,
        Op::Factorial => true,
        _ => false,
    }
}

/// Whether the operator can be applied to two operands.
pub open spec fn spec_op_is_binary(o: Op) -> bool {
    match o {
        Op::Factorial => false,
        _ => true,
    }
}

/// The symbol an operator is written as.
pub open spec fn spec_op_char(o: Op) -> char {
    match o {
        Op::Plus => '+',
        Op::Minus => '-',
        Op::Factorial => '!',
        Op::Multiply => '*',
        Op::Divide => '/',
        Op::Power => '^',
        Op::Modulo => '%',
    }
}

/// The operator written as the character `c`, if any.
pub open spec fn spec_op_of_char(c: char) -> Option<Op> {
    if c == '+' {
        Some(Op::Plus)
    } else if c == '-' {
        Some(Op::Minus)
    } else if c == '!' {
        Some(Op::Factorial)
    } else if c == '*' {
        Some(Op::Multiply)
    } else if c == '/' {
        Some(Op::Divide)
    } else if c == '^' {
        Some(Op::Power)
    } else if c == '%' {
        Some(Op::Modulo)
    } else {
        None
    }
}

/// An `i64`-range failure of rational arithmetic surfaces as
/// `CalculationError`.
pub open spec fn lift_range(o: Option<Rat>) -> Result<Rat, CalcError> {
    match o {
        Option::Some(r) => Ok(r),
        Option::None => Err(CalcError::CalculationError),
    }
}

/// The reciprocal of a normalized nonzero rational: components swapped,
/// the sign kept on the numerator.
pub open spec fn spec_invert(r: Rat) -> Rat {
    if r.num < 0 {
        Rat { num: (-(r.den as int)) as i64, den: (-(r.num as int)) as i64 }
    } else {
        Rat { num: r.den, den: r.num }
    }
}

/// `a ^ b`, exactly. The exponent must be an integer (a fractional exponent
/// is `CalculationError`, checked first); a zero base with a negative
/// exponent is `ZeroDivision`; `0 ^ 0` is `1`; a result outside the `i64`
/// range is `CalculationError`.
pub open spec fn spec_pow_rat(a: Rat, b: Rat) -> Result<Rat, CalcError> {
    if int_abs(b.num as int) % (b.den as nat) != 0 {
        Err(CalcError::CalculationError)
    } else {
        let em = int_abs(b.num as int) / (b.den as nat);
        match spec_norm(a.num as int, a.den as int) {
            Option::None => Err(CalcError::CalculationError),
            Option::Some(an) => {
                if an.num == 0 {
                    if b.num < 0 {
                        Err(CalcError::ZeroDivision)
                    } else if em == 0 {
                        Ok(Rat { num: 1, den: 1 })
                    } else {
                        Ok(Rat { num: 0, den: 1 })
                    }
                } else if b.num >= 0 {
                    lift_range(spec_pow_fold(an, em))
                } else {
                    match spec_pow_fold(an, em) {
                        Option::None => Err(CalcError::CalculationError),
                        Option::Some(r) => Ok(spec_invert(r)),
                    }
                }
            },
        }
    }
}

/// The unary semantics of an operator: `+a = a`, `-a = 0 - a`,
/// `a! = factorial(trunc(a))`; the rest are `IncorrectNumberOfArgs`.
pub open spec fn spec_call_single(o: Op, a: Rat) -> Result<Rat, CalcError> {
    match o {
        Op::Plus => Ok(a),
        Op::Minus => lift_range(spec_sub_rat(Rat { num: 0, den: 1 }, a)),
        Op::Factorial => lift_range(spec_factorial_rat(a)),
        _ => Err(CalcError::IncorrectNumberOfArgs),
    }
}

/// The binary semantics of an operator on `a` (left) and `b` (right).
/// Division and modulo by a zero `b` are `ZeroDivision`; `!` is unary-only
/// and is `IncorrectNumberOfArgs` here.
pub open spec fn spec_call_double(o: Op, a: Rat, b: Rat) -> Result<Rat, CalcError> {
    match o {
        Op::Plus => lift_range(spec_add_rat(a, b)),
        Op::Minus => lift_range(spec_sub_rat(a, b)),
        Op::Multiply => lift_range(spec_mul_rat(a, b)),
        Op::Divide => if b.num == 0 {
            Err(CalcError::ZeroDivision)
        } else {
            lift_range(spec_div_rat(a, b))
        },
        Op::Modulo => if b.num == 0 {
            Err(CalcError::ZeroDivision)
        } else {
            lift_range(spec_rem_rat(a, b))
        },
        Op::Power => spec_pow_rat(a, b),
        Op::Factorial => Err(CalcError::IncorrectNumberOfArgs),
    }
}

impl Op {
    /// The symbol this operator is written as.
    pub fn as_str(&self) -> (r: &'static str)
        ensures
            r@ == seq![spec_op_char(*self)],
    {
        proof {
            reveal_strlit("+");
            reveal_strlit("-");
            reveal_strlit("!");
            reveal_strlit("*");
            reveal_strlit("/");
            reveal_strlit("^");
            reveal_strlit("%");
        }
        match self {
            Op::Plus => "+",
            Op::Minus => "-",
            Op::Factorial => "!",
            Op::Multiply => "*",
            Op::Divide => "/",
            Op::Power => "^",
            Op::Modulo => "%",
        }
    }

    /// The precedence weight used by the infix-to-postfix conversion.
    pub fn weight(&self) -> (w: i32)
        ensures
            w as int == spec_op_weight(*self),
    {
        match self {
            Op::Plus => 1,
            Op::Minus => 1,
            Op::Factorial => 3,
            Op::Multiply => 2,
            Op::Divide => 2,
            Op::Power => 3,
            Op::Modulo => 2,
        }
    }

    /// Whether this operator can be applied to one operand.
    pub fn is_unary(&self) -> (r: bool)
        ensures
            r == spec_op_is_unary(*self),
    {
        match self {
            Op::Plus | Op::Minus | Op::Factorial => true,
            _ => false,
        }
    }

    /// Whether this operator can be applied to two operands.
    pub fn is_binary(&self) -> (r: bool)
        ensures
            r == spec_op_is_binary(*self),
    {
        match self {
            Op::Factorial => false,
            _ => true,
        }
    }

    /// The operator written as the character `c`, if any.
    pub fn of_char(c: char) -> (r: Option<Op>)
        ensures
            r == spec_op_of_char(c),
    {
        if c == '+' {
            Some(Op::Plus)
        } else if c == '-' {
            Some(Op::Minus)
        } else if c == '!' {
            Some(Op::Factorial)
        } else if c == '*' {
            Some(Op::Multiply)
        } else if c == '/' {
            Some(Op::Divide)
        } else if c == '^' {
            Some(Op::Power)
        } else if c == '%' {
            Some(Op::Modulo)
        } else {
            None
        }
    }

    /// Applies the unary semantics of this operator to `a`.
    pub fn call_single(&self, a: Rat) -> (r: Result<Rat, CalcError>)
        requires
            a.wf(),
        ensures
            r == spec_call_single(*self, a),
            r is Ok ==> r->Ok_0.wf(),
    {
        match self {
            Op::Plus => Ok(a),
            Op::Minus => match (Rat { num: 0, den: 1 }).checked_sub(a) {
                Option::Some(v) => Ok(v),
                Option::None => Err(CalcError::CalculationError),
            },
            Op::Factorial => match a.checked_factorial() {
                Option::Some(v) => Ok(v),
                Option::None => Err(CalcError::CalculationError),
            },
            _ => Err(CalcError::IncorrectNumberOfArgs),
        }
    }

    /// Applies the binary semantics of this operator to `a` (left) and
    /// `b` (right).
    pub fn call_double(&self, a: Rat, b: Rat) -> (r: Result<Rat, CalcError>)
        requires
            a.wf(),
            b.wf(),
        ensures
            r == spec_call_double(*self, a, b),
            r is Ok ==> r->Ok_0.wf(),
    {
        match self {
            Op::Plus => match a.checked_add(b) {
                Option::Some(v) => Ok(v),
                Option::None => Err(CalcError::CalculationError),
            },
            Op::Minus => match a.checked_sub(b) {
                Option::Some(v) => Ok(v),
                Option::None => Err(CalcError::CalculationError),
            },
            Op::Multiply => match a.checked_mul(b) {
                Option::Some(v) => Ok(v),
                Option::None => Err(CalcError::CalculationError),
            },
            Op::Divide => if b.num == 0 {
                Err(CalcError::ZeroDivision)
            } else {
                match a.checked_div(b) {
                    Option::Some(v) => Ok(v),
                    Option::None => Err(CalcError::CalculationError),
                }
            },
            Op::Modulo => if b.num == 0 {
                Err(CalcError::ZeroDivision)
            } else {
                match a.checked_rem(b) {
                    Option::Some(v) => Ok(v),
                    Option::None => Err(CalcError::CalculationError),
                }
            },
            Op::Power => pow_rat(a, b),
            Op::Factorial => Err(CalcError::IncorrectNumberOfArgs),
        }
    }
}

/// `a ^ b` on exact rationals; see `spec_pow_rat` for the domain policy.
fn pow_rat(a: Rat, b: Rat) -> (r: Result<Rat, CalcError>)
    requires
        a.wf(),
        b.wf(),
    ensures
        r == spec_pow_rat(a, b),
        r is Ok ==> r->Ok_0.wf(),
{
    let ub: u128 = if b.num < 0 {
        ((-(b.num as i128)) as u128)
    } else {
        b.num as u128
    };
    let ud: u128 = b.den as u128;
    if ub % ud != 0 {
        return Err(CalcError::CalculationError);
    }
    let em128: u128 = ub / ud;
    proof {
        lemma_div_nonincreasing(ub as int, ud as int);
    }
    let em: u64 = em128 as u64;
    match a.normalized() {
        Option::None => Err(CalcError::CalculationError),
        Option::Some(an) => {
            if an.num == 0 {
                if b.num < 0 {
                    Err(CalcError::ZeroDivision)
                } else if em == 0 {
                    Ok(Rat { num: 1, den: 1 })
                } else {
                    Ok(Rat { num: 0, den: 1 })
                }
            } else if an.den == 1 && (an.num == 1 || an.num == -1) {
                let v: Rat = if an.num == 1 || em % 2 == 0 {
                    Rat { num: 1, den: 1 }
                } else {
                    Rat { num: -1i64, den: 1 }
                };
                proof {
                    if an.num == 1 {
                        lemma_pow_fold_one(em as nat);
                    } else {
                        lemma_pow_fold_neg_one(em as nat);
                    }
                    assert(spec_invert(v) == v);
                }
                Ok(v)
            } else if b.num >= 0 {
                match an.checked_pow_nat(em) {
                    Option::Some(v) => Ok(v),
                    Option::None => Err(CalcError::CalculationError),
                }
            } else {
                match an.checked_pow_nat(em) {
                    Option::Some(v) => {
                        proof {
                            lemma_pow_fold_bounds(an, em as nat);
                            lemma_pow_fold_nonzero(an, em as nat);
                        }
                        if v.num < 0 {
                            Ok(Rat { num: -v.den, den: -v.num })
                        } else {
                            Ok(Rat { num: v.den, den: v.num })
                        }
                    },
                    Option::None => Err(CalcError::CalculationError),
                }
            }
        },
    }
}

} // verus!
