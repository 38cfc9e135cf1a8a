//! Rendering tokens back into text, and reading a single token from text.
//!
//! A rational renders as its normalized components: the numerator with its
//! sign, then `/` and the denominator unless that is `1`, so `25/2` for
//! `12.5` and `11` for `11`.

use vstd::prelude::*;
use vstd::arithmetic::div_mod::lemma_div_decreases;
use crate::error::CalcError;
use crate::rational::Rat;
use crate::rational::int_abs;
use crate::token::Op;
use crate::token::Token;
use crate::token::spec_op_char;
use crate::tokenizer::spec_tokenize;
use crate::tokenizer::tokenize;

verus! {

/// The character of one decimal digit.
pub open spec fn spec_digit_char(d: int) -> char {
    if d == 0 {
        '0'
    } else if d == 1 {
        '1'
    } else if d == 2 {
        '2'
    } else if d == 3 {
        '3'
    } else if d == 4 {
        '4'
    } else if d == 5 {
        '5'
    } else if d == 6 {
        '6'
    } else if d == 7 {
        '7'
    } else if d == 8 {
        '8'
    } else {
        '9'
    }
}

/// One decimal digit as text.
fn digit_str(d: u64) -> (r: &'static str)
    requires
        d < 10,
    ensures
        r@ == seq![spec_digit_char(d as int)],
{
    proof {
        reveal_strlit("0");
        reveal_strlit("1");
        reveal_strlit("2");
        reveal_strlit("3");
        reveal_strlit("4");
        reveal_strlit("5");
        reveal_strlit("6");
        reveal_strlit("7");
        reveal_strlit("8");
        reveal_strlit("9");
    }
    if d == 0 {
        "0"
    } else if d == 1 {
        "1"
    } else if d == 2 {
        "2"
    } else if d == 3 {
        "3"
    } else if d == 4 {
        "4"
    } else if d == 5 {
        "5"
    } else if d == 6 {
        "6"
    } else if d == 7 {
        "7"
    } else if d == 8 {
        "8"
    } else {
        "9"
    }
}

/// The decimal digits of a natural number, most significant first.
pub open spec fn spec_u64_str(n: nat) -> Seq<char>
    decreases n,
{
    if n < 10 {
        seq![spec_digit_char(n as int)]
    } else {
        spec_u64_str(n / 10).push(spec_digit_char((n % 10) as int))
    }
}

/// Renders a natural number in decimal.
fn u64_to_string(n: u64) -> (s: String)
    ensures
        s@ == spec_u64_str(n as nat),
    decreases n,
{
    if n < 10 {
        let mut s = String::new();
        s.append(digit_str(n));
        proof {
            assert(Seq::<char>::empty() + seq![spec_digit_char(n as int)] =~= seq![
                spec_digit_char(n as int),
            ]);
        }
        s
    } else {
        proof {
            lemma_div_decreases(n as int, 10);
        }
        let mut s = u64_to_string(n / 10);
        s.append(digit_str(n % 10));
        proof {
            assert(spec_u64_str(n as nat / 10) + seq![spec_digit_char((n as nat % 10) as int)]
                =~= spec_u64_str(n as nat / 10).push(spec_digit_char((n as nat % 10) as int)));
        }
        s
    }
}

/// The text of a rational: the numerator with its sign, then `/` and the
/// denominator unless that is `1`.
pub open spec fn spec_rat_str(r: Rat) -> Seq<char> {
    (if r.num < 0 {
        seq!['-']
    } else {
        Seq::<char>::empty()
    }) + spec_u64_str(int_abs(r.num as int)) + (if r.den == 1 {
        Seq::<char>::empty()
    } else {
        seq!['/'] + spec_u64_str(r.den as nat)
    })
}

impl Rat {
    /// Renders this rational; see `spec_rat_str`.
    pub fn to_str(&self) -> (s: String)
        requires
            self.wf(),
        ensures
            s@ == spec_rat_str(*self),
    {
        proof {
            reveal_strlit("-");
            reveal_strlit("/");
        }
        let mut s = String::new();
        let mag: u64 = if self.num < 0 {
            ((-(self.num as i128)) as u64)
        } else {
            self.num as u64
        };
        if self.num < 0 {
            s.append("-");
        }
        let ds = u64_to_string(mag);
        s.append(ds.as_str());
        if self.den != 1 {
            s.append("/");
            let es = u64_to_string(self.den as u64);
            s.append(es.as_str());
        }
        proof {
            assert(s@ =~= spec_rat_str(*self));
        }
        s
    }
}

/// The text of one token.
pub open spec fn spec_token_str(t: Token) -> Seq<char> {
    match t {
        Token::Number(r) => spec_rat_str(r),
        Token::LeftParen => seq!['('],
        Token::RightParen => seq![')'],
        Token::Operator(o) => seq![spec_op_char(o)],
    }
}

/// What `Token::new` returns: the single token that `value` scans to;
/// `BadExpression` when it scans to none or to several.
pub open spec fn spec_token_new(s: Seq<char>) -> Result<Token, CalcError> {
    match spec_tokenize(s) {
        Result::Err(e) => Err(e),
        Result::Ok(ts) => if ts.len() == 1 {
            Ok(ts[0])
        } else {
            Err(CalcError::BadExpression)
        },
    }
}

impl Token {
    /// Reads the single token that `value` holds: a numeric literal, a
    /// parenthesis or an operator symbol, with whitespace around it
    /// allowed. Text holding no token or several fails with
    /// `BadExpression`; an unrecognized character with `UnsupportedValue`.
    pub fn new(value: &str) -> (r: Result<Token, CalcError>)
        ensures
            r == spec_token_new(value@),
            (match r {
                Result::Ok(t) => crate::token::token_wf(t),
                Result::Err(_) => true,
            }),
    {
        match tokenize(value) {
            Result::Err(e) => Err(e),
            Result::Ok(v) => if v.len() == 1 {
                Ok(v[0])
            } else {
                Err(CalcError::BadExpression)
            },
        }
    }

    /// Renders this token; a number renders as `spec_rat_str` says.
    pub fn as_str(&self) -> (s: String)
        requires
            crate::token::token_wf(*self),
        ensures
            s@ == spec_token_str(*self),
    {
        proof {
            reveal_strlit("(");
            reveal_strlit(")");
        }
        match self {
            Token::Number(r) => r.to_str(),
            Token::LeftParen => {
                let mut s = String::new();
                s.append("(");
                proof {
                    assert(s@ =~= seq!['(']);
                }
                s
            },
            Token::RightParen => {
                let mut s = String::new();
                s.append(")");
                proof {
                    assert(s@ =~= seq![')']);
                }
                s
            },
            Token::Operator(o) => {
                let mut s = String::new();
                s.append(o.as_str());
                proof {
                    assert(s@ =~= seq![spec_op_char(*o)]);
                }
                s
            },
        }
    }
}

} // verus!
