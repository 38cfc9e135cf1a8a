//! Exact rational numbers on `i64` numerator / denominator pairs.
//!
//! Every value the engine computes with is a rational whose denominator is
//! positive (`wf`). All arithmetic normalizes its result by the greatest
//! common divisor and reports, through `Option`, when the normalized result
//! does not fit the `i64` range (the numerator may use the full magnitude
//! `i64::MAX`; `i64::MIN` never appears in a normalized value, so negation
//! is always safe).

use vstd::prelude::*;
use vstd::arithmetic::div_mod::lemma_fundamental_div_mod;
use vstd::arithmetic::div_mod::lemma_div_multiples_vanish;
use vstd::arithmetic::div_mod::lemma_div_nonincreasing;

verus! {

/// An exact rational number: `num / den`. Well-formed values keep `den >= 1`.
#[derive(Debug, Clone, Copy, PartialEq, Eq, Structural)]
pub struct Rat {
    pub num: i64,
    pub den: i64,
}

impl Rat {
    /// A rational is well-formed when its denominator is positive.
    pub open spec fn wf(self) -> bool {
        self.den >= 1
    }

    /// The rational `n / 1`.
    pub fn from_int(n: i64) -> (r: Rat)
        ensures
            r == (Rat { num: n, den: 1 }),
            r.wf(),
    {
        Rat { num: n, den: 1 }
    }
}

/// The magnitude of an integer.
pub open spec fn int_abs(n: int) -> nat {
    if n >= 0 {
        n as nat
    } else {
        (-n) as nat
    }
}

/// `x` divides `n` exactly.
pub open spec fn divides(x: int, n: int) -> bool {
    exists|k: int| n == #[trigger] (x * k)
}

/// The greatest common divisor, by Euclid's recursion.
pub open spec fn gcd_nat(a: nat, b: nat) -> nat
    decreases b,
{
    if b == 0 {
        a
    } else {
        gcd_nat(b, a % b)
    }
}

/// Euclid's recursion yields a common divisor of its two arguments.
pub proof fn lemma_gcd_divides(a: nat, b: nat)
    ensures
        divides(gcd_nat(a, b) as int, a as int),
        divides(gcd_nat(a, b) as int, b as int),
    decreases b,
{
    if b == 0 {
        assert(a as int == (a as int) * 1);
        assert(0int == (a as int) * 0);
    } else {
        lemma_gcd_divides(b, a % b);
        let g = gcd_nat(b, a % b) as int;
        let k1 = choose|k: int| b as int == #[trigger] (g * k);
        let k2 = choose|k: int| (a % b) as int == #[trigger] (g * k);
        lemma_fundamental_div_mod(a as int, b as int);
        let q = a as int / b as int;
        assert(a as int == (g * k1) * q + g * k2);
        assert((g * k1) * q + g * k2 == g * (k1 * q + k2)) by (nonlinear_arith);
        assert(a as int == g * (k1 * q + k2));
    }
}

/// The greatest common divisor is positive as soon as one argument is.
pub proof fn lemma_gcd_pos(a: nat, b: nat)
    requires
        a > 0 || b > 0,
    ensures
        gcd_nat(a, b) >= 1,
{
    lemma_gcd_divides(a, b);
    if gcd_nat(a, b) == 0 {
        let ka = choose|k: int| a as int == #[trigger] (0 * k);
        let kb = choose|k: int| b as int == #[trigger] (0 * k);
        assert(a as int == 0 * ka);
        assert(b as int == 0 * kb);
        assert(a == 0 && b == 0);
    }
}

/// The normalized form of `n / d` (meaningful for `d >= 1`): both components
/// are divided by their greatest common divisor; `None` when the reduced
/// numerator magnitude or denominator exceeds `i64::MAX`.
pub open spec fn spec_norm(n: int, d: int) -> Option<Rat> {
    let un = int_abs(n);
    let g = gcd_nat(un, d as nat);
    let qn = un / g;
    let qd = (d as nat) / g;
    if qn <= i64::MAX && qd <= i64::MAX {
        Some(
            Rat {
                num: if n < 0 {
                    (0 - qn as int) as i64
                } else {
                    qn as i64
                },
                den: qd as i64,
            },
        )
    } else {
        None
    }
}

/// A normalized rational is well-formed, its numerator magnitude is no
/// larger than `i64::MAX`, and it is zero exactly when the input was.
pub proof fn lemma_norm_wf(n: int, d: int)
    requires
        d >= 1,
        spec_norm(n, d) is Some,
    ensures
        spec_norm(n, d)->Some_0.wf(),
        -i64::MAX <= spec_norm(n, d)->Some_0.num <= i64::MAX,
        spec_norm(n, d)->Some_0.num == 0 <==> n == 0,
{
    let un = int_abs(n);
    let g = gcd_nat(un, d as nat);
    lemma_gcd_pos(un, d as nat);
    lemma_gcd_divides(un, d as nat);
    let kd = choose|k: int| d == #[trigger] ((g as int) * k);
    lemma_div_multiples_vanish(kd, g as int);
    assert((d as nat) / g == kd);
    assert(kd >= 1) by (nonlinear_arith)
        requires
            g >= 1,
            (g as int) * kd >= 1,
    ;
    let kn = choose|k: int| un as int == #[trigger] ((g as int) * k);
    lemma_div_multiples_vanish(kn, g as int);
    assert(un / g == kn);
    if n != 0 {
        assert(kn >= 1) by (nonlinear_arith)
            requires
                g >= 1,
                (g as int) * kn >= 1,
        ;
    }
}

/// The magnitude of an `i128`, as a `u128`.
fn i128_abs(n: i128) -> (r: u128)
    requires
        n > i128::MIN,
    ensures
        r as nat == int_abs(n as int),
{
    if n < 0 {
        (-n) as u128
    } else {
        n as u128
    }
}

/// Euclid's algorithm.
fn gcd_u128(a: u128, b: u128) -> (g: u128)
    ensures
        g as nat == gcd_nat(a as nat, b as nat),
{
    let mut x: u128 = a;
    let mut y: u128 = b;
    while y != 0
        invariant
            gcd_nat(x as nat, y as nat) == gcd_nat(a as nat, b as nat),
        decreases y,
    {
        let r: u128 = x % y;
        x = y;
        y = r;
    }
    x
}

/// Reduces `n / d` by the greatest common divisor and checks that the result
/// fits the `i64` range.
pub(crate) fn norm_checked(n: i128, d: i128) -> (r: Option<Rat>)
    requires
        d >= 1,
        n > i128::MIN,
    ensures
        r == spec_norm(n as int, d as int),
        r is Some ==> r->Some_0.wf(),
{
    let un: u128 = i128_abs(n);
    let ud: u128 = d as u128;
    let g: u128 = gcd_u128(un, ud);
    proof {
        lemma_gcd_pos(un as nat, ud as nat);
    }
    let qn: u128 = un / g;
    let qd: u128 = ud / g;
    if qn <= i64::MAX as u128 && qd <= i64::MAX as u128 {
        proof {
            if spec_norm(n as int, d as int) is Some {
                lemma_norm_wf(n as int, d as int);
            }
        }
        let num: i64 = if n < 0 {
            -(qn as i64)
        } else {
            qn as i64
        };
        let den: i64 = qd as i64;
        Some(Rat { num, den })
    } else {
        None
    }
}

/// Interval bound for a product.
pub proof fn lemma_mul_bound(x: int, y: int, bx: int, by: int)
    by (nonlinear_arith)
    requires
        -bx <= x <= bx,
        -by <= y <= by,
        0 <= bx,
        0 <= by,
    ensures
        -(bx * by) <= x * y <= bx * by,
{
}

/// A product of positive factors is positive.
pub proof fn lemma_mul_pos(x: int, y: int)
    by (nonlinear_arith)
    requires
        x >= 1,
        y >= 1,
    ensures
        x * y >= 1,
{
}

/// A product of a positive and a negative factor is negative.
pub proof fn lemma_mul_neg(x: int, y: int)
    by (nonlinear_arith)
    requires
        x >= 1,
        y <= -1,
    ensures
        x * y <= -1,
{
}

/// A product of nonzero factors is nonzero.
pub proof fn lemma_mul_nonzero(x: int, y: int)
    by (nonlinear_arith)
    requires
        x != 0,
        y != 0,
    ensures
        x * y != 0,
{
}

/// The exact sum of two rationals, normalized.
pub open spec fn spec_add_rat(a: Rat, b: Rat) -> Option<Rat> {
    spec_norm(a.num * b.den + b.num * a.den, a.den * b.den)
}

/// The exact difference of two rationals, normalized.
pub open spec fn spec_sub_rat(a: Rat, b: Rat) -> Option<Rat> {
    spec_norm(a.num * b.den - b.num * a.den, a.den * b.den)
}

/// The exact product of two rationals, normalized.
pub open spec fn spec_mul_rat(a: Rat, b: Rat) -> Option<Rat> {
    spec_norm(a.num * b.num, a.den * b.den)
}

/// The exact quotient of two rationals (meaningful for `b.num != 0`),
/// normalized; the denominator sign is folded into the numerator.
pub open spec fn spec_div_rat(a: Rat, b: Rat) -> Option<Rat> {
    if b.num < 0 {
        spec_norm(-(a.num * b.den), -(a.den * b.num))
    } else {
        spec_norm(a.num * b.den, a.den * b.num)
    }
}

/// The remainder of truncated integer division: it has the magnitude of
/// `|x| % |y|` and the sign of the dividend `x` (meaningful for `y != 0`).
pub open spec fn spec_trem(x: int, y: int) -> int {
    if x >= 0 {
        (int_abs(x) % int_abs(y)) as int
    } else {
        -((int_abs(x) % int_abs(y)) as int)
    }
}

/// The exact floating-remainder of two rationals (meaningful for
/// `b.num != 0`): `a - trunc(a / b) * b`, normalized.
pub open spec fn spec_rem_rat(a: Rat, b: Rat) -> Option<Rat> {
    spec_norm(spec_trem(a.num * b.den, b.num * a.den), a.den * b.den)
}

/// The integer part of a rational, truncated toward zero.
pub open spec fn spec_trunc(a: Rat) -> int {
    if a.num >= 0 {
        (int_abs(a.num as int) / (a.den as nat)) as int
    } else {
        -((int_abs(a.num as int) / (a.den as nat)) as int)
    }
}

/// The factorial of a natural number.
pub open spec fn spec_fact(k: nat) -> nat
    decreases k,
{
    if k == 0 {
        1
    } else {
        k * spec_fact((k - 1) as nat)
    }
}

/// Factorials are at least one.
pub proof fn lemma_fact_pos(k: nat)
    ensures
        spec_fact(k) >= 1,
    decreases k,
{
    if k > 0 {
        lemma_fact_pos((k - 1) as nat);
        assert(k * spec_fact((k - 1) as nat) >= 1) by (nonlinear_arith)
            requires
                k >= 1,
                spec_fact((k - 1) as nat) >= 1,
        ;
    }
}

/// Factorials grow monotonically.
pub proof fn lemma_fact_mono(i: nat, j: nat)
    requires
        i <= j,
    ensures
        spec_fact(i) <= spec_fact(j),
    decreases j,
{
    if i < j {
        lemma_fact_mono(i, (j - 1) as nat);
        lemma_fact_pos((j - 1) as nat);
        assert(spec_fact((j - 1) as nat) <= j * spec_fact((j - 1) as nat)) by (nonlinear_arith)
            requires
                j >= 1,
                spec_fact((j - 1) as nat) >= 1,
        ;
    }
}

/// The factorial of the truncation of `a` toward zero, as a rational:
/// `1` for a non-positive truncation, `None` when the factorial does not
/// fit an `i64`.
pub open spec fn spec_factorial_rat(a: Rat) -> Option<Rat> {
    let t = spec_trunc(a);
    if t <= 0 {
        Some(Rat { num: 1, den: 1 })
    } else if spec_fact(t as nat) <= i64::MAX {
        Some(Rat { num: spec_fact(t as nat) as i64, den: 1 })
    } else {
        None
    }
}

/// `b` raised to the natural power `e`, as `e` successive normalized
/// multiplications; `None` as soon as one of them leaves the `i64` range.
pub open spec fn spec_pow_fold(b: Rat, e: nat) -> Option<Rat>
    decreases e,
{
    if e == 0 {
        Some(Rat { num: 1, den: 1 })
    } else {
        match spec_pow_fold(b, (e - 1) as nat) {
            Option::None => None,
            Option::Some(r) => spec_mul_rat(r, b),
        }
    }
}

/// Once a power leaves the `i64` range, every later power does too.
pub proof fn lemma_pow_fold_none(b: Rat, k: nat, e: nat)
    requires
        spec_pow_fold(b, k) is None,
        k <= e,
    ensures
        spec_pow_fold(b, e) is None,
    decreases e,
{
    if e > k {
        lemma_pow_fold_none(b, k, (e - 1) as nat);
    }
}

/// Every power of one is one.
pub proof fn lemma_pow_fold_one(e: nat)
    ensures
        spec_pow_fold(Rat { num: 1, den: 1 }, e) == Some(Rat { num: 1, den: 1 }),
    decreases e,
{
    let one = Rat { num: 1, den: 1 };
    if e > 0 {
        lemma_pow_fold_one((e - 1) as nat);
        assert(gcd_nat(1, 0) == 1);
        assert(gcd_nat(1, 1) == 1);
        assert(spec_pow_fold(one, e) == spec_mul_rat(one, one));
        assert(spec_mul_rat(one, one) == spec_norm(1, 1));
        assert(spec_norm(1, 1) == Some(one));
    }
}

/// Powers of minus one alternate with the exponent's parity.
pub proof fn lemma_pow_fold_neg_one(e: nat)
    ensures
        spec_pow_fold(Rat { num: -1i64, den: 1 }, e) == Some(
            if e % 2 == 0 {
                Rat { num: 1, den: 1 }
            } else {
                Rat { num: -1i64, den: 1 }
            },
        ),
    decreases e,
{
    if e > 0 {
        lemma_pow_fold_neg_one((e - 1) as nat);
        assert(gcd_nat(1, 0) == 1);
        assert(gcd_nat(1, 1) == 1);
    }
}

/// Powers stay within the normalized `i64` range while they are `Some`.
pub proof fn lemma_pow_fold_bounds(b: Rat, e: nat)
    requires
        b.wf(),
        spec_pow_fold(b, e) is Some,
    ensures
        spec_pow_fold(b, e)->Some_0.wf(),
        -i64::MAX <= spec_pow_fold(b, e)->Some_0.num <= i64::MAX,
    decreases e,
{
    if e > 0 {
        lemma_pow_fold_bounds(b, (e - 1) as nat);
        let r = spec_pow_fold(b, (e - 1) as nat)->Some_0;
        lemma_mul_pos(r.den as int, b.den as int);
        lemma_norm_wf(r.num * b.num, r.den * b.den);
    }
}

/// Powers of a nonzero rational are nonzero (and well-formed).
pub proof fn lemma_pow_fold_nonzero(b: Rat, e: nat)
    requires
        b.wf(),
        b.num != 0,
        spec_pow_fold(b, e) is Some,
    ensures
        spec_pow_fold(b, e)->Some_0.num != 0,
        spec_pow_fold(b, e)->Some_0.wf(),
    decreases e,
{
    if e > 0 {
        let r = spec_pow_fold(b, (e - 1) as nat)->Some_0;
        lemma_pow_fold_nonzero(b, (e - 1) as nat);
        lemma_mul_nonzero(r.num as int, b.num as int);
        lemma_mul_pos(r.den as int, b.den as int);
        lemma_norm_wf(r.num * b.num, r.den * b.den);
    }
}

/// The product of an `i64` pair, exactly, in an `i128`.
fn mul_wide(x: i64, y: i64) -> (r: i128)
    ensures
        r as int == (x as int) * (y as int),
{
    proof {
        lemma_mul_bound(x as int, y as int, 0x8000_0000_0000_0000, 0x8000_0000_0000_0000);
    }
    (x as i128) * (y as i128)
}

impl Rat {
    /// The normalized rational `num / den`; `None` for a zero denominator.
    /// A negative denominator's sign is folded into the numerator.
    pub fn new(num: i64, den: i64) -> (r: Option<Rat>)
        ensures
            r == spec_rat_new(num, den),
            r is Some ==> r->Some_0.wf(),
    {
        if den == 0 {
            None
        } else if den < 0 {
            norm_checked(-(num as i128), -(den as i128))
        } else {
            norm_checked(num as i128, den as i128)
        }
    }

    /// The normalized form of this rational.
    pub fn normalized(self) -> (r: Option<Rat>)
        requires
            self.wf(),
        ensures
            r == spec_norm(self.num as int, self.den as int),
            r is Some ==> r->Some_0.wf(),
    {
        norm_checked(self.num as i128, self.den as i128)
    }

    /// The exact sum, `None` when the normalized result leaves `i64`.
    pub fn checked_add(self, other: Rat) -> (r: Option<Rat>)
        requires
            self.wf(),
            other.wf(),
        ensures
            r == spec_add_rat(self, other),
            r is Some ==> r->Some_0.wf(),
    {
        proof {
            lemma_mul_bound(self.num as int, other.den as int, 0x8000_0000_0000_0000, 0x7fff_ffff_ffff_ffff);
            lemma_mul_bound(other.num as int, self.den as int, 0x8000_0000_0000_0000, 0x7fff_ffff_ffff_ffff);
            lemma_mul_pos(self.den as int, other.den as int);
        }
        let p1: i128 = mul_wide(self.num, other.den);
        let p2: i128 = mul_wide(other.num, self.den);
        let pd: i128 = mul_wide(self.den, other.den);
        norm_checked(p1 + p2, pd)
    }

    /// The exact difference, `None` when the normalized result leaves `i64`.
    pub fn checked_sub(self, other: Rat) -> (r: Option<Rat>)
        requires
            self.wf(),
            other.wf(),
        ensures
            r == spec_sub_rat(self, other),
            r is Some ==> r->Some_0.wf(),
    {
        proof {
            lemma_mul_bound(self.num as int, other.den as int, 0x8000_0000_0000_0000, 0x7fff_ffff_ffff_ffff);
            lemma_mul_bound(other.num as int, self.den as int, 0x8000_0000_0000_0000, 0x7fff_ffff_ffff_ffff);
            lemma_mul_pos(self.den as int, other.den as int);
        }
        let p1: i128 = mul_wide(self.num, other.den);
        let p2: i128 = mul_wide(other.num, self.den);
        let pd: i128 = mul_wide(self.den, other.den);
        norm_checked(p1 - p2, pd)
    }

    /// The exact product, `None` when the normalized result leaves `i64`.
    pub fn checked_mul(self, other: Rat) -> (r: Option<Rat>)
        requires
            self.wf(),
            other.wf(),
        ensures
            r == spec_mul_rat(self, other),
            r is Some ==> r->Some_0.wf(),
    {
        proof {
            lemma_mul_bound(self.num as int, other.num as int, 0x8000_0000_0000_0000, 0x8000_0000_0000_0000);
            lemma_mul_pos(self.den as int, other.den as int);
        }
        let pn: i128 = mul_wide(self.num, other.num);
        let pd: i128 = mul_wide(self.den, other.den);
        norm_checked(pn, pd)
    }

    /// The exact quotient, `None` when the normalized result leaves `i64`.
    /// The divisor must be nonzero; `Op::call_double` reports `ZeroDivision`
    /// before calling this.
    pub fn checked_div(self, other: Rat) -> (r: Option<Rat>)
        requires
            self.wf(),
            other.wf(),
            other.num != 0,
        ensures
            r == spec_div_rat(self, other),
            r is Some ==> r->Some_0.wf(),
    {
        proof {
            lemma_mul_bound(self.num as int, other.den as int, 0x8000_0000_0000_0000, 0x7fff_ffff_ffff_ffff);
            lemma_mul_bound(self.den as int, other.num as int, 0x7fff_ffff_ffff_ffff, 0x8000_0000_0000_0000);
        }
        let pn: i128 = mul_wide(self.num, other.den);
        let pd: i128 = mul_wide(self.den, other.num);
        if other.num < 0 {
            proof {
                lemma_mul_neg(self.den as int, other.num as int);
            }
            norm_checked(-pn, -pd)
        } else {
            proof {
                lemma_mul_pos(self.den as int, other.num as int);
            }
            norm_checked(pn, pd)
        }
    }

    /// The exact truncated remainder `self - trunc(self / other) * other`,
    /// `None` when the normalized result leaves `i64`. The divisor must be
    /// nonzero; `Op::call_double` reports `ZeroDivision` before calling this.
    pub fn checked_rem(self, other: Rat) -> (r: Option<Rat>)
        requires
            self.wf(),
            other.wf(),
            other.num != 0,
        ensures
            r == spec_rem_rat(self, other),
            r is Some ==> r->Some_0.wf(),
    {
        proof {
            lemma_mul_bound(self.num as int, other.den as int, 0x8000_0000_0000_0000, 0x7fff_ffff_ffff_ffff);
            lemma_mul_bound(other.num as int, self.den as int, 0x8000_0000_0000_0000, 0x7fff_ffff_ffff_ffff);
            lemma_mul_pos(self.den as int, other.den as int);
            lemma_mul_nonzero(other.num as int, self.den as int);
        }
        let p1: i128 = mul_wide(self.num, other.den);
        let p2: i128 = mul_wide(other.num, self.den);
        let pd: i128 = mul_wide(self.den, other.den);
        let u1: u128 = i128_abs(p1);
        let u2: u128 = i128_abs(p2);
        let ur: u128 = u1 % u2;
        let rn: i128 = if p1 < 0 {
            -(ur as i128)
        } else {
            ur as i128
        };
        norm_checked(rn, pd)
    }

    /// The integer part of this rational, truncated toward zero.
    pub fn trunc(self) -> (t: i64)
        requires
            self.wf(),
        ensures
            t as int == spec_trunc(self),
    {
        let un: u128 = i128_abs(self.num as i128);
        let q: u128 = un / (self.den as u128);
        proof {
            lemma_div_nonincreasing(un as int, self.den as int);
        }
        if self.num < 0 {
            (-(q as i128)) as i64
        } else {
            q as i64
        }
    }

    /// The factorial of the truncation of this rational toward zero
    /// (`1` for a non-positive truncation), `None` when it leaves `i64`.
    pub fn checked_factorial(self) -> (r: Option<Rat>)
        requires
            self.wf(),
        ensures
            r == spec_factorial_rat(self),
            r is Some ==> r->Some_0.wf(),
    {
        let t: i64 = self.trunc();
        if t <= 0 {
            return Some(Rat { num: 1, den: 1 });
        }
        let tu: u64 = t as u64;
        let mut p: u128 = 1;
        let mut i: u64 = 0;
        while i < tu
            invariant
                i <= tu,
                1 <= tu <= i64::MAX,
                tu as int == spec_trunc(self),
                p == spec_fact(i as nat),
                p <= i64::MAX,
            decreases tu - i,
        {
            i = i + 1;
            let ghost p0: nat = p as nat;
            proof {
                lemma_mul_bound(p as int, i as int, 0x7fff_ffff_ffff_ffff, 0x7fff_ffff_ffff_ffff);
            }
            p = p * (i as u128);
            proof {
                assert(p0 * (i as nat) == (i as nat) * p0) by (nonlinear_arith);
                assert(p == spec_fact(i as nat));
            }
            if p > i64::MAX as u128 {
                proof {
                    lemma_fact_mono(i as nat, tu as nat);
                }
                return None;
            }
        }
        Some(Rat { num: p as i64, den: 1 })
    }

    /// This rational raised to the natural power `e`, by `e` successive
    /// normalized multiplications; `None` as soon as one leaves `i64`.
    pub fn checked_pow_nat(self, e: u64) -> (r: Option<Rat>)
        requires
            self.wf(),
        ensures
            r == spec_pow_fold(self, e as nat),
            r is Some ==> r->Some_0.wf(),
    {
        let mut acc = Rat { num: 1, den: 1 };
        let mut i: u64 = 0;
        while i < e
            invariant
                i <= e,
                self.wf(),
                acc.wf(),
                spec_pow_fold(self, i as nat) == Some(acc),
            decreases e - i,
        {
            i = i + 1;
            match acc.checked_mul(self) {
                Option::None => {
                    proof {
                        lemma_pow_fold_none(self, i as nat, e as nat);
                    }
                    return None;
                },
                Option::Some(x) => {
                    acc = x;
                },
            }
        }
        Some(acc)
    }
}

/// What `Rat::new` returns: the normalized rational `num / den`, `None` for
/// a zero denominator.
pub open spec fn spec_rat_new(num: i64, den: i64) -> Option<Rat> {
    if den == 0 {
        None
    } else if den < 0 {
        spec_norm(-(num as int), -(den as int))
    } else {
        spec_norm(num as int, den as int)
    }
}

} // verus!
