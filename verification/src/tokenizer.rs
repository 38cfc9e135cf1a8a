//! The tokenizer: scans raw text into a sequence of typed tokens.
//!
//! Whitespace is skipped; a run of digits and at most one decimal point
//! forms one numeric literal, which is flushed into a `Number` token when a
//! symbol or the end of the input is met; `( ) + - * / % ^ !` stand for
//! themselves; anything else fails with `UnsupportedValue`.

use vstd::prelude::*;
use crate::error::CalcError;
use crate::rational::Rat;
use crate::rational::norm_checked;
use crate::rational::spec_norm;
use crate::token::Op;
use crate::token::Token;
use crate::token::spec_op_of_char;
use crate::token::token_wf;

verus! {

/// Decimal digits.
pub open spec fn spec_is_digit(c: char) -> bool {
    48 <= c as u32 <= 57
}

/// The numeric value of a digit character.
pub open spec fn spec_digit_val(c: char) -> int {
    c as u32 - 48
}

/// The whitespace the tokenizer skips.
pub open spec fn spec_is_space(c: char) -> bool {
    c == ' ' || c == '\t' || c == '\n' || c == '\r'
}

/// The token a single symbol character stands for, if any.
pub open spec fn spec_symbol_token(c: char) -> Option<Token> {
    if c == '(' {
        Some(Token::LeftParen)
    } else if c == ')' {
        Some(Token::RightParen)
    } else {
        match spec_op_of_char(c) {
            Option::Some(o) => Some(Token::Operator(o)),
            Option::None => None,
        }
    }
}

/// Powers of ten.
pub open spec fn spec_pow10(k: nat) -> nat
    decreases k,
{
    if k == 0 {
        1
    } else {
        10 * spec_pow10((k - 1) as nat)
    }
}

/// The largest power of ten a literal's denominator can reach.
pub proof fn lemma_pow10_18()
    ensures
        spec_pow10(18) == 1_000_000_000_000_000_000,
{
    assert(spec_pow10(0) == 1);
    assert(spec_pow10(1) == 10);
    assert(spec_pow10(2) == 100);
    assert(spec_pow10(3) == 1000);
    assert(spec_pow10(4) == 10000);
    assert(spec_pow10(5) == 100000);
    assert(spec_pow10(6) == 1000000);
    assert(spec_pow10(7) == 10000000);
    assert(spec_pow10(8) == 100000000);
    assert(spec_pow10(9) == 1000000000);
    assert(spec_pow10(10) == 10000000000);
    assert(spec_pow10(11) == 100000000000);
    assert(spec_pow10(12) == 1000000000000);
    assert(spec_pow10(13) == 10000000000000);
    assert(spec_pow10(14) == 100000000000000);
    assert(spec_pow10(15) == 1000000000000000);
    assert(spec_pow10(16) == 10000000000000000);
    assert(spec_pow10(17) == 100000000000000000);
    assert(spec_pow10(18) == 1000000000000000000);
}

/// Powers of ten grow monotonically.
pub proof fn lemma_pow10_mono(i: nat, j: nat)
    requires
        i <= j,
    ensures
        spec_pow10(i) <= spec_pow10(j),
    decreases j,
{
    if i < j {
        lemma_pow10_mono(i, (j - 1) as nat);
    }
}

/// The left-to-right scan of one numeric literal. The accumulator `acc`
/// carries the value of the digits seen so far (the decimal point ignored),
/// `has_digit` whether any digit was seen, `dot` whether the point was, and
/// `frac` how many digits followed it. `None` for a second point or a
/// foreign character.
pub open spec fn lit_rec(p: Seq<char>, acc: int, has_digit: bool, dot: bool, frac: nat) -> Option<
    (int, bool, nat),
>
    decreases p.len(),
{
    if p.len() == 0 {
        Some((acc, has_digit, frac))
    } else {
        let c = p[0];
        if spec_is_digit(c) {
            lit_rec(
                p.drop_first(),
                acc * 10 + spec_digit_val(c),
                true,
                dot,
                if dot {
                    frac + 1
                } else {
                    frac
                },
            )
        } else if c == '.' {
            if dot {
                None
            } else {
                lit_rec(p.drop_first(), acc, has_digit, true, frac)
            }
        } else {
            None
        }
    }
}

/// The scanned value and fraction length only grow along the scan.
pub proof fn lemma_lit_rec_mono(p: Seq<char>, acc: int, has_digit: bool, dot: bool, frac: nat)
    requires
        acc >= 0,
    ensures
        (match lit_rec(p, acc, has_digit, dot, frac) {
            Option::Some(t) => t.0 >= acc && t.2 >= frac,
            Option::None => true,
        }),
    decreases p.len(),
{
    if p.len() > 0 {
        let c = p[0];
        if spec_is_digit(c) {
            lemma_lit_rec_mono(
                p.drop_first(),
                acc * 10 + spec_digit_val(c),
                true,
                dot,
                if dot {
                    frac + 1
                } else {
                    frac
                },
            );
        } else if c == '.' && !dot {
            lemma_lit_rec_mono(p.drop_first(), acc, has_digit, true, frac);
        }
    }
}

/// The value of one pending numeric literal, normalized: the scanned digits
/// over `10 ^ frac`. `None` for a malformed literal (no digit, two points,
/// a foreign character) and for one whose scaled numerator exceeds
/// `i64::MAX` or that carries more than 18 fractional digits.
pub open spec fn spec_parse_literal(p: Seq<char>) -> Option<Rat> {
    match lit_rec(p, 0, false, false, 0) {
        Option::None => None,
        Option::Some((num, has_digit, frac)) => {
            if !has_digit {
                None
            } else if num > i64::MAX {
                None
            } else if frac > 18 {
                None
            } else {
                spec_norm(num, spec_pow10(frac) as int)
            }
        },
    }
}

/// Parses one pending numeric literal.
fn parse_literal(p: &Vec<char>) -> (r: Option<Rat>)
    ensures
        r == spec_parse_literal(p@),
        r is Some ==> r->Some_0.wf(),
{
    let n: usize = p.len();
    let mut acc: u128 = 0;
    let mut has_digit: bool = false;
    let mut dot: bool = false;
    let mut frac: u64 = 0;
    let mut j: usize = 0;
    proof {
        assert(p@.skip(0) =~= p@);
    }
    while j < n
        invariant
            j <= n,
            n == p@.len(),
            acc <= i64::MAX,
            frac <= 18,
            lit_rec(p@.skip(j as int), acc as int, has_digit, dot, frac as nat) == lit_rec(
                p@,
                0,
                false,
                false,
                0,
            ),
        decreases n - j,
    {
        let c: char = p[j];
        let cv: u32 = c as u32;
        let ghost accg: int = acc as int;
        let ghost hdg: bool = has_digit;
        let ghost dotg: bool = dot;
        let ghost fracg: nat = frac as nat;
        proof {
            assert(p@.skip(j as int)[0] == p@[j as int]);
            assert(p@.skip(j as int).drop_first() =~= p@.skip(j as int + 1));
        }
        if 48 <= cv && cv <= 57 {
            let d: u128 = (cv - 48) as u128;
            acc = acc * 10 + d;
            has_digit = true;
            if dot {
                frac = frac + 1;
            }
            if acc > i64::MAX as u128 {
                proof {
                    lemma_lit_rec_mono(
                        p@.skip(j as int + 1),
                        acc as int,
                        has_digit,
                        dot,
                        frac as nat,
                    );
                }
                return None;
            }
            if frac > 18 {
                proof {
                    lemma_lit_rec_mono(
                        p@.skip(j as int + 1),
                        acc as int,
                        has_digit,
                        dot,
                        frac as nat,
                    );
                }
                return None;
            }
            proof {
                assert(lit_rec(p@.skip(j as int), accg, hdg, dotg, fracg) == lit_rec(
                    p@.skip(j as int + 1),
                    acc as int,
                    has_digit,
                    dot,
                    frac as nat,
                ));
            }
        } else if c == '.' {
            if dot {
                return None;
            }
            dot = true;
            proof {
                assert(lit_rec(p@.skip(j as int), accg, hdg, dotg, fracg) == lit_rec(
                    p@.skip(j as int + 1),
                    acc as int,
                    has_digit,
                    dot,
                    frac as nat,
                ));
            }
        } else {
            proof {
                assert(lit_rec(p@.skip(j as int), accg, hdg, dotg, fracg) is None);
            }
            return None;
        }
        j = j + 1;
    }
    proof {
        assert(p@.skip(n as int) =~= Seq::<char>::empty());
    }
    if !has_digit {
        return None;
    }
    let mut den: u64 = 1;
    let mut k: u64 = 0;
    while k < frac
        invariant
            k <= frac <= 18,
            1 <= den,
            den as nat == spec_pow10(k as nat),
        decreases frac - k,
    {
        proof {
            lemma_pow10_mono(k as nat + 1, 18);
            lemma_pow10_18();
        }
        den = den * 10;
        k = k + 1;
    }
    proof {
        lemma_pow10_mono(frac as nat, 18);
        lemma_pow10_18();
    }
    norm_checked(acc as i128, den as i128)
}

/// Flushing a pending literal buffer: nothing for an empty buffer, one
/// `Number` token otherwise, `BadExpression` for a malformed literal.
pub open spec fn spec_flush(p: Seq<char>) -> Result<Seq<Token>, CalcError> {
    if p.len() == 0 {
        Ok(Seq::<Token>::empty())
    } else {
        match spec_parse_literal(p) {
            Option::None => Err(CalcError::BadExpression),
            Option::Some(r) => Ok(seq![Token::Number(r)]),
        }
    }
}

/// The left-to-right scan of the whole input, with the pending literal
/// buffer as its state: digits and the point extend the buffer, whitespace
/// is skipped, a symbol first flushes the buffer and then stands for its own
/// token, and any other character fails with `UnsupportedValue`.
pub open spec fn tok_rec(s: Seq<char>, pending: Seq<char>) -> Result<Seq<Token>, CalcError>
    decreases s.len(),
{
    if s.len() == 0 {
        spec_flush(pending)
    } else {
        let c = s[0];
        if spec_is_digit(c) || c == '.' {
            tok_rec(s.drop_first(), pending.push(c))
        } else if spec_is_space(c) {
            tok_rec(s.drop_first(), pending)
        } else {
            match spec_symbol_token(c) {
                Option::None => Err(CalcError::UnsupportedValue(c)),
                Option::Some(t) => match spec_flush(pending) {
                    Result::Err(e) => Err(e),
                    Result::Ok(fl) => match tok_rec(s.drop_first(), Seq::<char>::empty()) {
                        Result::Err(e) => Err(e),
                        Result::Ok(rest) => Ok(fl + seq![t] + rest),
                    },
                },
            }
        }
    }
}

/// What `tokenize` returns for the character sequence `s`.
pub open spec fn spec_tokenize(s: Seq<char>) -> Result<Seq<Token>, CalcError> {
    tok_rec(s, Seq::<char>::empty())
}

/// Prefixing already-emitted tokens onto the outcome of the remaining scan.
pub open spec fn prepend_toks(prefix: Seq<Token>, r: Result<Seq<Token>, CalcError>) -> Result<
    Seq<Token>,
    CalcError,
> {
    match r {
        Result::Ok(rest) => Ok(prefix + rest),
        Result::Err(e) => Err(e),
    }
}

/// Scans `text` into its token sequence; every number token carries a
/// well-formed normalized rational.
pub fn tokenize(text: &str) -> (r: Result<Vec<Token>, CalcError>)
    ensures
        (match r {
            Result::Ok(v) => spec_tokenize(text@) == Result::<Seq<Token>, CalcError>::Ok(v@)
                && forall|k: int| 0 <= k < v@.len() ==> token_wf(#[trigger] v@[k]),
            Result::Err(e) => spec_tokenize(text@) == Result::<Seq<Token>, CalcError>::Err(e),
        }),
{
    let n: usize = text.unicode_len();
    let mut toks: Vec<Token> = Vec::new();
    let mut pending: Vec<char> = Vec::new();
    let mut i: usize = 0;
    proof {
        assert(text@.skip(0) =~= text@);
        let r0 = tok_rec(text@, Seq::<char>::empty());
        if r0 is Ok {
            assert(Seq::<Token>::empty() + r0->Ok_0 =~= r0->Ok_0);
        }
        assert(spec_tokenize(text@) == prepend_toks(toks@, tok_rec(text@.skip(0), pending@)));
    }
    while i < n
        invariant
            i <= n,
            n == text@.len(),
            spec_tokenize(text@) == prepend_toks(toks@, tok_rec(text@.skip(i as int), pending@)),
            forall|k: int| 0 <= k < toks@.len() ==> token_wf(#[trigger] toks@[k]),
        decreases n - i,
    {
        let c: char = text.get_char(i);
        let cv: u32 = c as u32;
        proof {
            assert(text@.skip(i as int)[0] == text@[i as int]);
            assert(text@.skip(i as int).drop_first() =~= text@.skip(i as int + 1));
        }
        let ghost pend0 = pending@;
        let ghost toks0 = toks@;
        if (48 <= cv && cv <= 57) || c == '.' {
            pending.push(c);
            proof {
                assert(tok_rec(text@.skip(i as int), pend0) == tok_rec(
                    text@.skip(i as int + 1),
                    pending@,
                ));
            }
        } else if c == ' ' || c == '\t' || c == '\n' || c == '\r' {
            proof {
                assert(tok_rec(text@.skip(i as int), pend0) == tok_rec(
                    text@.skip(i as int + 1),
                    pending@,
                ));
            }
        } else {
            let sym: Option<Token> = if c == '(' {
                Some(Token::LeftParen)
            } else if c == ')' {
                Some(Token::RightParen)
            } else {
                match Op::of_char(c) {
                    Option::Some(o) => Some(Token::Operator(o)),
                    Option::None => None,
                }
            };
            proof {
                assert(sym == spec_symbol_token(c));
            }
            match sym {
                Option::None => {
                    assert(tok_rec(text@.skip(i as int), pend0) == Result::<
                        Seq<Token>,
                        CalcError,
                    >::Err(CalcError::UnsupportedValue(c)));
                    return Err(CalcError::UnsupportedValue(c));
                },
                Option::Some(t) => {
                    let ghost fl: Seq<Token>;
                    if pending.len() > 0 {
                        match parse_literal(&pending) {
                            Option::None => {
                                assert(spec_flush(pend0) == Result::<Seq<Token>, CalcError>::Err(
                                    CalcError::BadExpression,
                                ));
                                assert(tok_rec(text@.skip(i as int), pend0) == Result::<
                                    Seq<Token>,
                                    CalcError,
                                >::Err(CalcError::BadExpression));
                                return Err(CalcError::BadExpression);
                            },
                            Option::Some(rv) => {
                                proof {
                                    fl = seq![Token::Number(rv)];
                                    assert(spec_flush(pend0) == Result::<Seq<Token>, CalcError>::Ok(
                                        fl,
                                    ));
                                }
                                toks.push(Token::Number(rv));
                                pending.clear();
                            },
                        }
                    } else {
                        proof {
                            fl = Seq::<Token>::empty();
                            assert(spec_flush(pend0) == Result::<Seq<Token>, CalcError>::Ok(fl));
                        }
                    }
                    toks.push(t);
                    proof {
                        assert(toks@ =~= toks0 + fl + seq![t]);
                        let rest = tok_rec(text@.skip(i as int + 1), Seq::<char>::empty());
                        assert(pending@ =~= Seq::<char>::empty());
                        if rest is Ok {
                            assert(toks0 + (fl + seq![t] + rest->Ok_0) =~= (toks0 + fl + seq![t])
                                + rest->Ok_0);
                            assert(prepend_toks(toks0, tok_rec(text@.skip(i as int), pend0))
                                == prepend_toks(toks@, tok_rec(text@.skip(i as int + 1), pending@)));
                        } else {
                            assert(prepend_toks(toks0, tok_rec(text@.skip(i as int), pend0))
                                == prepend_toks(toks@, tok_rec(text@.skip(i as int + 1), pending@)));
                        }
                    }
                },
            }
        }
        i = i + 1;
    }
    proof {
        assert(text@.skip(n as int) =~= Seq::<char>::empty());
    }
    if pending.len() > 0 {
        match parse_literal(&pending) {
            Option::None => {
                return Err(CalcError::BadExpression);
            },
            Option::Some(rv) => {
                let ghost toks0 = toks@;
                toks.push(Token::Number(rv));
                proof {
                    assert(toks@ =~= toks0 + seq![Token::Number(rv)]);
                }
            },
        }
    } else {
        proof {
            assert(toks@ + Seq::<Token>::empty() =~= toks@);
        }
    }
    Ok(toks)
}

} // verus!
