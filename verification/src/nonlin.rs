//! Elementwise non-linear operations on the quantised integer domain.
//!
//! The transcendental functions are computed as exact integer
//! programs over a `2^32` fixed-point grid: `exp` uses the compound
//! formula `(1 + q/2^16)^(2^16)` with the argument clamped to
//! `[-20, 20]` and every step rounded half away from zero and capped,
//! the sigmoid / tanh / erf family is derived from it, and the square
//! roots use the exact integer square root.  Each function's
//! mathematical definition below is its full specification: the same
//! value on every machine, with no floating point involved.

use vstd::arithmetic::div_mod::{lemma_div_is_ordered, lemma_fundamental_div_mod};
use vstd::prelude::*;

use crate::scale::round_div;
use crate::tensor::{abs1, Tensor};

verus! {

/// One unit of the fixed-point grid: `2^32`.
pub const FP_UNIT: i128 = 0x1_0000_0000;

/// Cap on fixed-point magnitudes, comfortably above `e^20 * 2^32`.
pub const FP_CAP: i128 = 0x2000_0000_0000_0000;

/// The exponential argument is clamped to this many whole units.
pub const EXP_CLAMP: i128 = 20;

/// Number of compounding steps in the exponential: `2^16`.
pub const EXP_STEPS: i128 = 0x1_0000;

/// Clamps an integer into `[lo, hi]`.
pub open spec fn clamp(v: int, lo: int, hi: int) -> int {
    if v < lo {
        lo
    } else if v > hi {
        hi
    } else {
        v
    }
}

/// One fixed-point squaring step, rounded and capped.
pub open spec fn spec_fp_sq(a: int) -> int {
    let r = round_div(a * a, FP_UNIT as int);
    if r > FP_CAP as int {
        FP_CAP as int
    } else {
        r
    }
}

/// `k` fixed-point squarings of `a`: `a` raised to the power `2^k` on
/// the fixed-point grid.
pub open spec fn spec_fp_pow2k(a: int, k: nat) -> int
    decreases k,
{
    if k == 0 {
        a
    } else {
        spec_fp_sq(spec_fp_pow2k(a, (k - 1) as nat))
    }
}

/// The fixed-point base `1 + p / (den * 2^16)`, rounded.
pub open spec fn spec_exp_base(p: int, den: int) -> int {
    round_div((FP_UNIT as int) * (den * (EXP_STEPS as int) + p), den * (EXP_STEPS as int))
}

/// `e^(p/den)` on the fixed-point grid for `p >= 0`: the compound
/// base raised to `2^16` by sixteen squarings.
pub open spec fn spec_exp_fp_pos(p: int, den: int) -> int {
    spec_fp_pow2k(spec_exp_base(p, den), 16)
}

/// `e^(x/den)` on the fixed-point grid: the argument is clamped to
/// twenty whole units and negative arguments go through the
/// fixed-point reciprocal.
pub open spec fn spec_exp_fp(x: int, den: int) -> int {
    let xc = clamp(x, -EXP_CLAMP * den, EXP_CLAMP * den);
    if xc >= 0 {
        spec_exp_fp_pos(xc, den)
    } else {
        round_div((FP_UNIT as int) * (FP_UNIT as int), spec_exp_fp_pos(-xc, den))
    }
}

/// A non-negative rounded quotient lies within one of the floor
/// quotient.
pub proof fn lemma_round_div_bounds(a: int, b: int)
    requires
        a >= 0,
        b >= 1,
    ensures
        a / b <= round_div(a, b) <= a / b + 1,
        round_div(a, b) >= 0,
{
    vstd::arithmetic::div_mod::lemma_div_pos_is_pos(a, b);
}

/// A fixed-point squaring keeps the value between one unit and the
/// cap.
pub proof fn lemma_fp_sq_bounds(a: int)
    requires
        FP_UNIT <= a <= FP_CAP,
    ensures
        FP_UNIT <= spec_fp_sq(a) <= FP_CAP,
{
    let f = FP_UNIT as int;
    assert(a * a >= f * f) by (nonlinear_arith)
        requires
            a >= f,
            f >= 1,
    ;
    assert(a * a >= 0) by (nonlinear_arith)
        requires
            a >= 0,
    ;
    lemma_round_div_bounds(a * a, f);
    lemma_div_is_ordered(f * f, a * a, f);
    assert((f * f) / f == f) by {
        vstd::arithmetic::div_mod::lemma_fundamental_div_mod_converse(f * f, f, f, 0);
    }
}

/// Sixteen capped squarings keep the value between one unit and the
/// cap.
pub proof fn lemma_fp_pow2k_bounds(a: int, k: nat)
    requires
        FP_UNIT <= a <= FP_CAP,
    ensures
        FP_UNIT <= spec_fp_pow2k(a, k) <= FP_CAP,
    decreases k,
{
    if k > 0 {
        lemma_fp_pow2k_bounds(a, (k - 1) as nat);
        lemma_fp_sq_bounds(spec_fp_pow2k(a, (k - 1) as nat));
    }
}

/// The compound base lies between one unit and the cap when the
/// argument is within the clamp.
pub proof fn lemma_exp_base_bounds(p: int, den: int)
    requires
        den >= 1,
        0 <= p <= EXP_CLAMP * den,
    ensures
        FP_UNIT <= spec_exp_base(p, den) <= FP_CAP,
{
    let f = FP_UNIT as int;
    let d = den * (EXP_STEPS as int);
    assert(d >= EXP_STEPS && d >= 1) by (nonlinear_arith)
        requires
            den >= 1,
            d == den * (EXP_STEPS as int),
            EXP_STEPS as int == 0x1_0000,
    ;
    assert(EXP_CLAMP * den <= d) by (nonlinear_arith)
        requires
            d == den * (EXP_STEPS as int),
            EXP_STEPS as int == 0x1_0000,
            EXP_CLAMP as int == 20,
            den >= 1,
    ;
    let num = f * (d + p);
    assert(num >= f * d >= 0 && num <= f * (2 * d)) by (nonlinear_arith)
        requires
            0 <= p,
            p <= EXP_CLAMP * (den as int),
            EXP_CLAMP * (den as int) <= d,
            d >= 1,
            f >= 1,
            num == f * (d + p),
    ;
    lemma_round_div_bounds(num, d);
    lemma_div_is_ordered(f * d, num, d);
    assert((f * d) / d == f) by {
        vstd::arithmetic::div_mod::lemma_fundamental_div_mod_converse(f * d, d, f, 0);
    }
    lemma_div_is_ordered(num, f * (2 * d), d);
    assert((f * (2 * d)) / d == 2 * f) by {
        assert(f * (2 * d) == (2 * f) * d) by (nonlinear_arith);
        vstd::arithmetic::div_mod::lemma_fundamental_div_mod_converse((2 * f) * d, d, 2 * f, 0);
    }
}

/// The fixed-point exponential is non-negative and capped.
pub proof fn lemma_exp_fp_bounds(x: int, den: int)
    requires
        den >= 1,
    ensures
        0 <= spec_exp_fp(x, den) <= FP_CAP,
{
    let xc = clamp(x, -EXP_CLAMP * den, EXP_CLAMP * den);
    assert(EXP_CLAMP * den >= EXP_CLAMP) by (nonlinear_arith)
        requires
            den >= 1,
            EXP_CLAMP as int == 20,
    ;
    assert((-EXP_CLAMP) * den == -(EXP_CLAMP * den)) by (nonlinear_arith);
    if xc >= 0 {
        lemma_exp_base_bounds(xc, den);
        lemma_fp_pow2k_bounds(spec_exp_base(xc, den), 16);
    } else {
        lemma_exp_base_bounds(-xc, den);
        lemma_fp_pow2k_bounds(spec_exp_base(-xc, den), 16);
        let e = spec_exp_fp_pos(-xc, den);
        let f = FP_UNIT as int;
        lemma_round_div_bounds(f * f, e);
        lemma_div_is_ordered(f * f, f * e, e);
        assert(f * f <= f * e) by (nonlinear_arith)
            requires
                f <= e,
                f >= 0,
        ;
        assert((f * e) / e == f) by {
            vstd::arithmetic::div_mod::lemma_fundamental_div_mod_converse(f * e, e, f, 0);
        }
    }
}

/// Truncating division rounded half away from zero, total over all
/// machine dividends.
pub fn round_div_total(a: i128, b: i128) -> (r: i128)
    requires
        b >= 1,
    ensures
        r == round_div(a as int, b as int),
        abs1(r as int) <= abs1(a as int),
{
    if a > i128::MIN {
        crate::scale::round_div_i128(a, b)
    } else {
        let pa: u128 = 0x8000_0000_0000_0000_0000_0000_0000_0000;
        let bb = b as u128;
        let q = pa / bb;
        let r0 = pa % bb;
        proof {
            lemma_fundamental_div_mod(pa as int, bb as int);
            assert(q * bb == bb * q) by (nonlinear_arith);
            assert(pa == q * bb + r0);
            assert(q * bb >= q) by (nonlinear_arith)
                requires
                    bb >= 1,
                    q >= 0,
            ;
            assert(pa == abs1(a as int));
            assert(q == abs1(a as int) / (b as int));
            assert(r0 == abs1(a as int) % (b as int));
        }
        let m = if r0 >= bb - r0 {
            proof {
                assert(r0 >= 1);
                assert(q + 1 <= q * bb + r0);
            }
            q + 1
        } else {
            q
        };
        if m >= pa {
            proof {
                assert(m == pa);
                if bb >= 2 {
                    assert(q * bb >= q * 2) by (nonlinear_arith)
                        requires
                            q >= 0,
                            bb >= 2,
                    ;
                    assert(false);
                }
                assert(bb == 1);
                assert(r0 == 0);
                assert(m == q);
                assert(q == pa);
            }
            i128::MIN
        } else {
            -((m) as i128)
        }
    }
}

/// One fixed-point squaring on machine integers.
fn fp_sq(a: i128) -> (r: i128)
    requires
        FP_UNIT <= a <= FP_CAP,
    ensures
        r == spec_fp_sq(a as int),
        FP_UNIT <= r <= FP_CAP,
{
    proof {
        assert((a as int) * (a as int) <= (FP_CAP as int) * (FP_CAP as int)) by (nonlinear_arith)
            requires
                0 <= a <= FP_CAP,
        ;
        assert((a as int) * (a as int) >= 0) by (nonlinear_arith);
        lemma_fp_sq_bounds(a as int);
    }
    let p = a * a;
    let r = round_div_total(p, FP_UNIT);
    if r > FP_CAP {
        FP_CAP
    } else {
        r
    }
}

/// The fixed-point exponential `e^(x/den)` on machine integers.
pub fn exp_fp(x: i128, den: i128) -> (r: i128)
    requires
        1 <= den <= 0x1_0000_0000_0000_0000,
    ensures
        r == spec_exp_fp(x as int, den as int),
        0 <= r <= FP_CAP,
{
    proof {
        assert(EXP_CLAMP * den <= 20 * 0x1_0000_0000_0000_0000 && EXP_CLAMP * den >= 20)
            by (nonlinear_arith)
            requires
                1 <= den <= 0x1_0000_0000_0000_0000,
                EXP_CLAMP as int == 20,
        ;
        lemma_exp_fp_bounds(x as int, den as int);
    }
    let hi = EXP_CLAMP * den;
    let xc: i128 = if x > hi {
        hi
    } else if x < -hi {
        -hi
    } else {
        x
    };
    let neg = xc < 0;
    let p: i128 = if neg {
        -xc
    } else {
        xc
    };
    let d = den * EXP_STEPS;
    proof {
        assert(den * EXP_STEPS <= 0x1_0000_0000_0000_0000 * 0x1_0000 && den * EXP_STEPS >= 1)
            by (nonlinear_arith)
            requires
                1 <= den <= 0x1_0000_0000_0000_0000,
                EXP_STEPS as int == 0x1_0000,
        ;
        assert(EXP_CLAMP * (den as int) <= d as int) by (nonlinear_arith)
            requires
                d == (den as int) * (EXP_STEPS as int),
                EXP_STEPS as int == 0x1_0000,
                EXP_CLAMP as int == 20,
                den >= 1,
        ;
        assert(FP_UNIT * (d + p) <= FP_UNIT * (2 * d)) by (nonlinear_arith)
            requires
                FP_UNIT as int >= 1,
                0 <= p <= EXP_CLAMP * (den as int),
                EXP_CLAMP * (den as int) <= d,
        ;
        assert(FP_UNIT * (2 * d) <= 0x1_0000_0000 * (2 * 0x1_0000_0000_0000_0000 * 0x1_0000))
            by (nonlinear_arith)
            requires
                FP_UNIT as int == 0x1_0000_0000,
                1 <= d <= 0x1_0000_0000_0000_0000 * 0x1_0000,
        ;
        assert(FP_UNIT * (d + p) >= 0) by (nonlinear_arith)
            requires
                FP_UNIT as int >= 1,
                d + p >= 0,
        ;
        lemma_exp_base_bounds(p as int, den as int);
    }
    let base = round_div_total(FP_UNIT * (d + p), d);
    let mut acc = base;
    let mut i: u32 = 0;
    while i < 16
        invariant
            i <= 16,
            FP_UNIT <= base <= FP_CAP,
            acc == spec_fp_pow2k(base as int, i as nat),
            FP_UNIT <= acc <= FP_CAP,
        decreases 16 - i,
    {
        proof {
            lemma_fp_pow2k_bounds(base as int, i as nat);
        }
        acc = fp_sq(acc);
        i = i + 1;
    }
    if neg {
        let r = round_div_total(FP_UNIT * FP_UNIT, acc);
        proof {
            lemma_round_div_bounds((FP_UNIT as int) * (FP_UNIT as int), acc as int);
            lemma_div_is_ordered(
                (FP_UNIT as int) * (FP_UNIT as int),
                (FP_UNIT as int) * (acc as int),
                acc as int,
            );
            assert((FP_UNIT as int) * (FP_UNIT as int) <= (FP_UNIT as int) * (acc as int))
                by (nonlinear_arith)
                requires
                    FP_UNIT <= acc,
            ;
            assert(((FP_UNIT as int) * (acc as int)) / (acc as int) == FP_UNIT) by {
                vstd::arithmetic::div_mod::lemma_fundamental_div_mod_converse(
                    (FP_UNIT as int) * (acc as int),
                    acc as int,
                    FP_UNIT as int,
                    0,
                );
            }
        }
        r
    } else {
        acc
    }
}

/// Saturation of an integer into the machine range.
pub open spec fn sat_i128(v: int) -> int {
    clamp(v, i128::MIN as int, i128::MAX as int)
}

/// Saturating multiplication on machine integers.
pub fn sat_mul(a: i128, b: i128) -> (r: i128)
    ensures
        r == sat_i128(a * b),
{
    match a.checked_mul(b) {
        Some(p) => p,
        None => {
            proof {
                if a > 0 && b > 0 {
                    assert(a * b >= 1) by (nonlinear_arith)
                        requires
                            a >= 1,
                            b >= 1,
                    ;
                }
                if a < 0 && b < 0 {
                    assert(a * b >= 1) by (nonlinear_arith)
                        requires
                            a <= -1,
                            b <= -1,
                    ;
                }
                if a > 0 && b < 0 {
                    assert(a * b <= -1) by (nonlinear_arith)
                        requires
                            a >= 1,
                            b <= -1,
                    ;
                }
                if a < 0 && b > 0 {
                    assert(a * b <= -1) by (nonlinear_arith)
                        requires
                            a <= -1,
                            b >= 1,
                    ;
                }
                if a == 0 || b == 0 {
                    assert(a * b == 0) by (nonlinear_arith)
                        requires
                            a == 0 || b == 0,
                    ;
                }
            }
            if (a > 0) == (b > 0) {
                i128::MAX
            } else {
                i128::MIN
            }
        },
    }
}

/// The integer square root: the largest integer whose square does not
/// exceed the argument.
pub open spec fn spec_isqrt(v: int) -> int
    decreases v,
{
    if v <= 0 {
        0
    } else {
        let r = spec_isqrt(v - 1);
        if (r + 1) * (r + 1) <= v {
            r + 1
        } else {
            r
        }
    }
}

/// The integer square root brackets its argument between consecutive
/// squares.
pub proof fn lemma_isqrt_bracket(v: int)
    requires
        v >= 0,
    ensures
        spec_isqrt(v) >= 0,
        spec_isqrt(v) * spec_isqrt(v) <= v,
        v < (spec_isqrt(v) + 1) * (spec_isqrt(v) + 1),
    decreases v,
{
    if v == 0 {
    } else {
        lemma_isqrt_bracket(v - 1);
        let r = spec_isqrt(v - 1);
        if (r + 1) * (r + 1) <= v {
            assert(v <= (r + 1) * (r + 1) + ((r + 1) + (r + 1))) by (nonlinear_arith)
                requires
                    v - 1 < (r + 1) * (r + 1),
                    r >= 0,
            ;
            assert((r + 2) * (r + 2) == (r + 1) * (r + 1) + 2 * (r + 1) + 1) by (nonlinear_arith);
        }
    }
}

/// Any bracket between consecutive squares pins the integer square
/// root.
pub proof fn lemma_isqrt_unique(v: int, s: int)
    requires
        v >= 0,
        s >= 0,
        s * s <= v,
        v < (s + 1) * (s + 1),
    ensures
        s == spec_isqrt(v),
{
    lemma_isqrt_bracket(v);
    let t = spec_isqrt(v);
    if s < t {
        assert((s + 1) * (s + 1) <= t * t) by (nonlinear_arith)
            requires
                0 <= s,
                s + 1 <= t,
        ;
    }
    if t < s {
        assert((t + 1) * (t + 1) <= s * s) by (nonlinear_arith)
            requires
                0 <= t,
                t + 1 <= s,
        ;
    }
}

/// The nearest integer to the square root: the floor root, bumped when
/// the remainder passes the midpoint.
pub open spec fn spec_nearest_sqrt(v: int) -> int {
    let s = spec_isqrt(v);
    if v - s * s > s {
        s + 1
    } else {
        s
    }
}

/// The integer square root on machine words, by bisection.
pub fn isqrt_u128(v: u128) -> (s: u128)
    ensures
        s == spec_isqrt(v as int),
        s <= 0x1_0000_0000_0000_0000u128,
{
    let mut lo: u128 = 0;
    let mut hi: u128 = 0x1_0000_0000_0000_0000;
    proof {
        assert((hi as int) * (hi as int) > u128::MAX as int) by (nonlinear_arith)
            requires
                hi == 0x1_0000_0000_0000_0000u128,
        ;
    }
    while hi - lo > 1
        invariant
            lo < hi,
            hi <= 0x1_0000_0000_0000_0000u128,
            (lo as int) * (lo as int) <= v as int,
            (hi as int) * (hi as int) > v as int,
        decreases hi - lo,
    {
        let mid = lo + (hi - lo) / 2;
        match mid.checked_mul(mid) {
            Some(p) => {
                if p > v {
                    hi = mid;
                } else {
                    lo = mid;
                }
            },
            None => {
                hi = mid;
            },
        }
    }
    proof {
        lemma_isqrt_unique(v as int, lo as int);
    }
    lo
}

/// An exact fraction: the numerator over a positive denominator.  It
/// stands in for the fractional operator parameters — a division
/// constant, a leak slope, a comparison threshold.
#[derive(Clone, Copy, Debug, PartialEq, Eq, Hash, PartialOrd, Ord, Structural)]
pub struct Frac {
    /// Numerator; its sign is the sign of the fraction.
    pub num: i128,
    /// Denominator; always at least one.
    pub den: i128,
}

impl Frac {
    /// The denominator is positive.
    pub open spec fn wf(&self) -> bool {
        self.den >= 1
    }

    /// The fraction is strictly positive.
    pub open spec fn positive(&self) -> bool {
        self.den >= 1 && self.num >= 1
    }

    /// Builds the fraction `num / den`.
    pub fn new(num: i128, den: i128) -> (r: Frac)
        requires
            den >= 1,
        ensures
            r.num == num,
            r.den == den,
            r.wf(),
    {
        Frac { num, den }
    }

    /// The whole number `num / 1`.
    pub fn whole(num: i128) -> (r: Frac)
        ensures
            r.num == num,
            r.den == 1,
            r.wf(),
            r.positive() <==> num >= 1,
    {
        Frac { num, den: 1 }
    }
}

/// Rectified linear unit with a leak: non-negative inputs are divided
/// by the scale and rounded; negative inputs are multiplied by the
/// slope first.
pub open spec fn spec_leakyrelu(x: int, scale: int, slope: Frac) -> int {
    if x >= 0 {
        round_div(x, scale)
    } else {
        round_div(sat_i128(slope.num * x), sat_i128(slope.den * scale))
    }
}

/// One leaky-rectifier evaluation on machine integers.
pub fn leakyrelu_scalar(x: i128, scale: i128, slope: Frac) -> (r: i128)
    requires
        1 <= scale <= 0x1_0000_0000_0000_0000,
        slope.wf(),
    ensures
        r == spec_leakyrelu(x as int, scale as int, slope),
{
    if x >= 0 {
        round_div_total(x, scale)
    } else {
        let num = sat_mul(slope.num, x);
        let den = sat_mul(slope.den, scale);
        proof {
            assert(slope.den * scale >= 1) by (nonlinear_arith)
                requires
                    slope.den >= 1,
                    scale >= 1,
            ;
        }
        round_div_total(num, den)
    }
}

/// Division by an exact constant fraction, rounded half away from
/// zero: `x / (num/den) = x * den / num`.
pub open spec fn spec_const_div(x: int, denom: Frac) -> int {
    round_div(sat_i128(x * denom.den), denom.num as int)
}

/// One constant-division evaluation on machine integers.
pub fn const_div_scalar(x: i128, denom: Frac) -> (r: i128)
    requires
        denom.positive(),
    ensures
        r == spec_const_div(x as int, denom),
{
    let num = sat_mul(x, denom.den);
    round_div_total(num, denom.num)
}

/// The rounded reciprocal `scale / x`, with zero mapped to the zero
/// sentinel.
pub open spec fn spec_recip(x: int, scale: int) -> int {
    if x == 0 {
        0
    } else if x < 0 {
        -round_div(scale, abs1(x))
    } else {
        round_div(scale, abs1(x))
    }
}

/// One reciprocal evaluation on machine integers.
pub fn recip_scalar(x: i128, scale: i128) -> (r: i128)
    requires
        1 <= scale <= 0x1_0000_0000_0000_0000,
    ensures
        r == spec_recip(x as int, scale as int),
{
    if x == 0 {
        0
    } else if x == i128::MIN {
        proof {
            let p = abs1(x as int);
            assert(p == 0x8000_0000_0000_0000_0000_0000_0000_0000);
            assert((scale as int) / p == 0) by {
                vstd::arithmetic::div_mod::lemma_basic_div(scale as int, p);
            }
            assert((scale as int) % p == scale as int) by {
                vstd::arithmetic::div_mod::lemma_small_mod(scale as nat, p as nat);
            }
        }
        0
    } else {
        let ax: i128 = if x < 0 {
            -x
        } else {
            x
        };
        let m = round_div_total(scale, ax);
        if x < 0 {
            proof {
                assert(round_div(scale as int, ax as int) >= 0) by {
                    lemma_round_div_bounds(scale as int, ax as int);
                }
            }
            -m
        } else {
            m
        }
    }
}

/// The threshold comparison: one when `x` exceeds the fraction `a`,
/// else zero.
pub open spec fn spec_greater_than(x: int, a: Frac) -> int {
    if sat_i128(x * a.den) > a.num {
        1
    } else {
        0
    }
}

/// One threshold comparison on machine integers.
pub fn greater_than_scalar(x: i128, a: Frac) -> (r: i128)
    requires
        a.wf(),
    ensures
        r == spec_greater_than(x as int, a),
{
    let p = sat_mul(x, a.den);
    if p > a.num {
        1
    } else {
        0
    }
}

/// The quantised sigmoid: `out / (1 + e^(-x/in))` on the fixed-point
/// grid, rounded half away from zero.
pub open spec fn spec_sigmoid(x: int, sin: int, sout: int) -> int {
    round_div(sout * (FP_UNIT as int), (FP_UNIT as int) + spec_exp_fp(-x, sin))
}

/// One sigmoid evaluation on machine integers.
pub fn sigmoid_scalar(x: i128, sin: i128, sout: i128) -> (r: i128)
    requires
        1 <= sin <= 0x1_0000_0000_0000_0000,
        1 <= sout <= 0x1_0000_0000_0000_0000,
    ensures
        r == spec_sigmoid(x as int, sin as int, sout as int),
{
    let xn: i128 = if x == i128::MIN {
        proof {
            assert(EXP_CLAMP * sin <= 20 * 0x1_0000_0000_0000_0000) by (nonlinear_arith)
                requires
                    1 <= sin <= 0x1_0000_0000_0000_0000,
                    EXP_CLAMP as int == 20,
            ;
            assert(spec_exp_fp(i128::MAX as int, sin as int) == spec_exp_fp(
                -(i128::MIN as int),
                sin as int,
            ));
        }
        i128::MAX
    } else {
        -x
    };
    let e = exp_fp(xn, sin);
    proof {
        assert(sout * FP_UNIT <= 0x1_0000_0000_0000_0000 * 0x1_0000_0000 && sout * FP_UNIT >= 0)
            by (nonlinear_arith)
            requires
                0 <= sout <= 0x1_0000_0000_0000_0000,
                FP_UNIT as int == 0x1_0000_0000,
        ;
    }
    round_div_total(sout * FP_UNIT, FP_UNIT + e)
}

/// The quantised exponential: `out * e^(x/in)` on the fixed-point
/// grid, rounded half away from zero.
pub open spec fn spec_exp_scaled(x: int, sin: int, sout: int) -> int {
    round_div(sout * spec_exp_fp(x, sin), FP_UNIT as int)
}

/// One exponential evaluation on machine integers.
pub fn exp_scalar(x: i128, sin: i128, sout: i128) -> (r: i128)
    requires
        1 <= sin <= 0x1_0000_0000_0000_0000,
        1 <= sout <= 0x1_0000_0000_0000_0000,
    ensures
        r == spec_exp_scaled(x as int, sin as int, sout as int),
{
    let e = exp_fp(x, sin);
    proof {
        assert(sout * e <= 0x1_0000_0000_0000_0000 * (FP_CAP as int) && sout * e >= 0)
            by (nonlinear_arith)
            requires
                0 <= sout <= 0x1_0000_0000_0000_0000,
                0 <= e <= FP_CAP,
        ;
    }
    round_div_total(sout * e, FP_UNIT)
}

/// The quantised hyperbolic tangent: `(e^(2q) - 1) / (e^(2q) + 1)` on
/// the fixed-point grid, scaled by `out` and rounded.
pub open spec fn spec_tanh(x: int, sin: int, sout: int) -> int {
    let e2 = spec_exp_fp(sat_i128(2 * x), sin);
    round_div(sout * (e2 - FP_UNIT), e2 + (FP_UNIT as int))
}

/// One hyperbolic-tangent evaluation on machine integers.
pub fn tanh_scalar(x: i128, sin: i128, sout: i128) -> (r: i128)
    requires
        1 <= sin <= 0x1_0000_0000_0000_0000,
        1 <= sout <= 0x1_0000_0000_0000_0000,
    ensures
        r == spec_tanh(x as int, sin as int, sout as int),
{
    let x2 = sat_mul(2, x);
    let e2 = exp_fp(x2, sin);
    proof {
        assert(sout * (e2 - FP_UNIT) <= 0x1_0000_0000_0000_0000 * (FP_CAP as int) && sout * (e2
            - FP_UNIT) >= -(0x1_0000_0000_0000_0000 * (FP_CAP as int))) by (nonlinear_arith)
            requires
                0 <= sout <= 0x1_0000_0000_0000_0000,
                0 <= e2 <= FP_CAP,
                FP_UNIT as int == 0x1_0000_0000,
                FP_CAP as int == 0x2000_0000_0000_0000,
        ;
    }
    round_div_total(sout * (e2 - FP_UNIT), e2 + FP_UNIT)
}

/// Numerator of the slope matching the error function at zero:
/// `2 / sqrt(pi)`, to nine decimal places.
pub const ERF_SLOPE_NUM: i128 = 1_128_379_167;

/// Denominator of the error-function slope.
pub const ERF_SLOPE_DEN: i128 = 1_000_000_000;

/// The quantised error function: the hyperbolic tangent of the
/// argument scaled by `2 / sqrt(pi)`, which matches `erf` exactly at
/// zero and to first order around it.
pub open spec fn spec_erf(x: int, sin: int, sout: int) -> int {
    spec_tanh(
        round_div(sat_i128(x * (ERF_SLOPE_NUM as int)), ERF_SLOPE_DEN as int),
        sin,
        sout,
    )
}

/// One error-function evaluation on machine integers.
pub fn erf_scalar(x: i128, sin: i128, sout: i128) -> (r: i128)
    requires
        1 <= sin <= 0x1_0000_0000_0000_0000,
        1 <= sout <= 0x1_0000_0000_0000_0000,
    ensures
        r == spec_erf(x as int, sin as int, sout as int),
{
    let xs = sat_mul(x, ERF_SLOPE_NUM);
    let xq = round_div_total(xs, ERF_SLOPE_DEN);
    tanh_scalar(xq, sin, sout)
}

/// The quantised square root: `out * sqrt(x * in) / in`, with the
/// nearest integer square root; non-positive inputs map to zero.
pub open spec fn spec_sqrt(x: int, sin: int, sout: int) -> int {
    if x <= 0 {
        0
    } else {
        round_div(sat_i128(sout * spec_nearest_sqrt(sat_i128(x * sin))), sin)
    }
}

/// One square-root evaluation on machine integers.
pub fn sqrt_scalar(x: i128, sin: i128, sout: i128) -> (r: i128)
    requires
        1 <= sin <= 0x1_0000_0000_0000_0000,
        1 <= sout <= 0x1_0000_0000_0000_0000,
    ensures
        r == spec_sqrt(x as int, sin as int, sout as int),
{
    if x <= 0 {
        0
    } else {
        let p = sat_mul(x, sin);
        proof {
            assert(x * sin >= 1) by (nonlinear_arith)
                requires
                    x >= 1,
                    sin >= 1,
            ;
        }
        let s = isqrt_u128(p as u128);
        proof {
            lemma_isqrt_bracket(p as int);
        }
        let sq = s * s;
        let ns: u128 = if (p as u128) - sq > s {
            s + 1
        } else {
            s
        };
        let m = sat_mul(sout, ns as i128);
        round_div_total(m, sin)
    }
}

/// The quantised reciprocal square root: `out * in / sqrt(x * in)`;
/// non-positive inputs map to zero.
pub open spec fn spec_rsqrt(x: int, sin: int, sout: int) -> int {
    if x <= 0 {
        0
    } else {
        round_div(sat_i128(sout * sin), spec_nearest_sqrt(sat_i128(x * sin)))
    }
}

/// One reciprocal-square-root evaluation on machine integers.
pub fn rsqrt_scalar(x: i128, sin: i128, sout: i128) -> (r: i128)
    requires
        1 <= sin <= 0x1_0000_0000_0000_0000,
        1 <= sout <= 0x1_0000_0000_0000_0000,
    ensures
        r == spec_rsqrt(x as int, sin as int, sout as int),
{
    if x <= 0 {
        0
    } else {
        let p = sat_mul(x, sin);
        proof {
            assert(x * sin >= 1) by (nonlinear_arith)
                requires
                    x >= 1,
                    sin >= 1,
            ;
        }
        let s = isqrt_u128(p as u128);
        proof {
            lemma_isqrt_bracket(p as int);
            if s == 0 {
                assert(false);
            }
        }
        let sq = s * s;
        let ns: u128 = if (p as u128) - sq > s {
            s + 1
        } else {
            s
        };
        let m = sat_mul(sout, sin);
        round_div_total(m, ns as i128)
    }
}

/// Elementwise leaky rectifier over a tensor.
pub fn leakyrelu(a: &Tensor<i128>, scale: usize, slope: Frac) -> (r: Tensor<i128>)
    requires
        a.wf(),
        1 <= scale,
        slope.wf(),
    ensures
        r.wf(),
        r.shape() == a.shape(),
        r.data().len() == a.data().len(),
        forall|i: int|
            0 <= i < a.data().len() ==> r.data()[i] == spec_leakyrelu(a.data()[i] as int, scale as int, slope),
{
    let len = a.len();
    let mut out: Vec<i128> = Vec::new();
    let mut i: usize = 0;
    while i < len
        invariant
            i <= len,
            a.wf(),
            len == a.data().len(),
            1 <= scale,
            slope.wf(),
            out@.len() == i,
            forall|j: int|
                0 <= j < i ==> out@[j] == spec_leakyrelu(a.data()[j] as int, scale as int, slope),
        decreases len - i,
    {
        let x = a.get_flat(i);
        out.push(leakyrelu_scalar(x, scale as i128, slope));
        i = i + 1;
    }
    a.with_data(out)
}

/// Elementwise division by a constant fraction.
pub fn const_div(a: &Tensor<i128>, denom: Frac) -> (r: Tensor<i128>)
    requires
        a.wf(),
        denom.positive(),
    ensures
        r.wf(),
        r.shape() == a.shape(),
        r.data().len() == a.data().len(),
        forall|i: int|
            0 <= i < a.data().len() ==> r.data()[i] == spec_const_div(a.data()[i] as int, denom),
{
    let len = a.len();
    let mut out: Vec<i128> = Vec::new();
    let mut i: usize = 0;
    while i < len
        invariant
            i <= len,
            a.wf(),
            len == a.data().len(),
            denom.positive(),
            out@.len() == i,
            forall|j: int|
                0 <= j < i ==> out@[j] == spec_const_div(a.data()[j] as int, denom),
        decreases len - i,
    {
        let x = a.get_flat(i);
        out.push(const_div_scalar(x, denom));
        i = i + 1;
    }
    a.with_data(out)
}

/// Elementwise rounded reciprocal of the input, scaled.
pub fn recip(a: &Tensor<i128>, scale: usize) -> (r: Tensor<i128>)
    requires
        a.wf(),
        1 <= scale,
    ensures
        r.wf(),
        r.shape() == a.shape(),
        r.data().len() == a.data().len(),
        forall|i: int|
            0 <= i < a.data().len() ==> r.data()[i] == spec_recip(a.data()[i] as int, scale as int),
{
    let len = a.len();
    let mut out: Vec<i128> = Vec::new();
    let mut i: usize = 0;
    while i < len
        invariant
            i <= len,
            a.wf(),
            len == a.data().len(),
            1 <= scale,
            out@.len() == i,
            forall|j: int|
                0 <= j < i ==> out@[j] == spec_recip(a.data()[j] as int, scale as int),
        decreases len - i,
    {
        let x = a.get_flat(i);
        out.push(recip_scalar(x, scale as i128));
        i = i + 1;
    }
    a.with_data(out)
}

/// Elementwise threshold comparison against a constant fraction.
pub fn greater_than(a: &Tensor<i128>, a_param: Frac) -> (r: Tensor<i128>)
    requires
        a.wf(),
        a_param.wf(),
    ensures
        r.wf(),
        r.shape() == a.shape(),
        r.data().len() == a.data().len(),
        forall|i: int|
            0 <= i < a.data().len() ==> r.data()[i] == spec_greater_than(a.data()[i] as int, a_param),
{
    let len = a.len();
    let mut out: Vec<i128> = Vec::new();
    let mut i: usize = 0;
    while i < len
        invariant
            i <= len,
            a.wf(),
            len == a.data().len(),
            a_param.wf(),
            out@.len() == i,
            forall|j: int|
                0 <= j < i ==> out@[j] == spec_greater_than(a.data()[j] as int, a_param),
        decreases len - i,
    {
        let x = a.get_flat(i);
        out.push(greater_than_scalar(x, a_param));
        i = i + 1;
    }
    a.with_data(out)
}

/// Elementwise quantised sigmoid.
pub fn sigmoid(a: &Tensor<i128>, scale_input: usize, scale_output: usize) -> (r: Tensor<i128>)
    requires
        a.wf(),
        1 <= scale_input,
        1 <= scale_output,
    ensures
        r.wf(),
        r.shape() == a.shape(),
        r.data().len() == a.data().len(),
        forall|i: int|
            0 <= i < a.data().len() ==> r.data()[i] == spec_sigmoid(a.data()[i] as int, scale_input as int, scale_output as int),
{
    let len = a.len();
    let mut out: Vec<i128> = Vec::new();
    let mut i: usize = 0;
    while i < len
        invariant
            i <= len,
            a.wf(),
            len == a.data().len(),
            1 <= scale_input,
            1 <= scale_output,
            out@.len() == i,
            forall|j: int|
                0 <= j < i ==> out@[j] == spec_sigmoid(a.data()[j] as int, scale_input as int, scale_output as int),
        decreases len - i,
    {
        let x = a.get_flat(i);
        out.push(sigmoid_scalar(x, scale_input as i128, scale_output as i128));
        i = i + 1;
    }
    a.with_data(out)
}

/// Elementwise quantised exponential.
pub fn exp(a: &Tensor<i128>, scale_input: usize, scale_output: usize) -> (r: Tensor<i128>)
    requires
        a.wf(),
        1 <= scale_input,
        1 <= scale_output,
    ensures
        r.wf(),
        r.shape() == a.shape(),
        r.data().len() == a.data().len(),
        forall|i: int|
            0 <= i < a.data().len() ==> r.data()[i] == spec_exp_scaled(a.data()[i] as int, scale_input as int, scale_output as int),
{
    let len = a.len();
    let mut out: Vec<i128> = Vec::new();
    let mut i: usize = 0;
    while i < len
        invariant
            i <= len,
            a.wf(),
            len == a.data().len(),
            1 <= scale_input,
            1 <= scale_output,
            out@.len() == i,
            forall|j: int|
                0 <= j < i ==> out@[j] == spec_exp_scaled(a.data()[j] as int, scale_input as int, scale_output as int),
        decreases len - i,
    {
        let x = a.get_flat(i);
        out.push(exp_scalar(x, scale_input as i128, scale_output as i128));
        i = i + 1;
    }
    a.with_data(out)
}

/// Elementwise quantised hyperbolic tangent.
pub fn tanh(a: &Tensor<i128>, scale_input: usize, scale_output: usize) -> (r: Tensor<i128>)
    requires
        a.wf(),
        1 <= scale_input,
        1 <= scale_output,
    ensures
        r.wf(),
        r.shape() == a.shape(),
        r.data().len() == a.data().len(),
        forall|i: int|
            0 <= i < a.data().len() ==> r.data()[i] == spec_tanh(a.data()[i] as int, scale_input as int, scale_output as int),
{
    let len = a.len();
    let mut out: Vec<i128> = Vec::new();
    let mut i: usize = 0;
    while i < len
        invariant
            i <= len,
            a.wf(),
            len == a.data().len(),
            1 <= scale_input,
            1 <= scale_output,
            out@.len() == i,
            forall|j: int|
                0 <= j < i ==> out@[j] == spec_tanh(a.data()[j] as int, scale_input as int, scale_output as int),
        decreases len - i,
    {
        let x = a.get_flat(i);
        out.push(tanh_scalar(x, scale_input as i128, scale_output as i128));
        i = i + 1;
    }
    a.with_data(out)
}

/// Elementwise quantised error function.
pub fn erffunc(a: &Tensor<i128>, scale_input: usize, scale_output: usize) -> (r: Tensor<i128>)
    requires
        a.wf(),
        1 <= scale_input,
        1 <= scale_output,
    ensures
        r.wf(),
        r.shape() == a.shape(),
        r.data().len() == a.data().len(),
        forall|i: int|
            0 <= i < a.data().len() ==> r.data()[i] == spec_erf(a.data()[i] as int, scale_input as int, scale_output as int),
{
    let len = a.len();
    let mut out: Vec<i128> = Vec::new();
    let mut i: usize = 0;
    while i < len
        invariant
            i <= len,
            a.wf(),
            len == a.data().len(),
            1 <= scale_input,
            1 <= scale_output,
            out@.len() == i,
            forall|j: int|
                0 <= j < i ==> out@[j] == spec_erf(a.data()[j] as int, scale_input as int, scale_output as int),
        decreases len - i,
    {
        let x = a.get_flat(i);
        out.push(erf_scalar(x, scale_input as i128, scale_output as i128));
        i = i + 1;
    }
    a.with_data(out)
}

/// Elementwise quantised square root.
pub fn sqrt(a: &Tensor<i128>, scale_input: usize, scale_output: usize) -> (r: Tensor<i128>)
    requires
        a.wf(),
        1 <= scale_input,
        1 <= scale_output,
    ensures
        r.wf(),
        r.shape() == a.shape(),
        r.data().len() == a.data().len(),
        forall|i: int|
            0 <= i < a.data().len() ==> r.data()[i] == spec_sqrt(a.data()[i] as int, scale_input as int, scale_output as int),
{
    let len = a.len();
    let mut out: Vec<i128> = Vec::new();
    let mut i: usize = 0;
    while i < len
        invariant
            i <= len,
            a.wf(),
            len == a.data().len(),
            1 <= scale_input,
            1 <= scale_output,
            out@.len() == i,
            forall|j: int|
                0 <= j < i ==> out@[j] == spec_sqrt(a.data()[j] as int, scale_input as int, scale_output as int),
        decreases len - i,
    {
        let x = a.get_flat(i);
        out.push(sqrt_scalar(x, scale_input as i128, scale_output as i128));
        i = i + 1;
    }
    a.with_data(out)
}

/// Elementwise quantised reciprocal square root.
pub fn rsqrt(a: &Tensor<i128>, scale_input: usize, scale_output: usize) -> (r: Tensor<i128>)
    requires
        a.wf(),
        1 <= scale_input,
        1 <= scale_output,
    ensures
        r.wf(),
        r.shape() == a.shape(),
        r.data().len() == a.data().len(),
        forall|i: int|
            0 <= i < a.data().len() ==> r.data()[i] == spec_rsqrt(a.data()[i] as int, scale_input as int, scale_output as int),
{
    let len = a.len();
    let mut out: Vec<i128> = Vec::new();
    let mut i: usize = 0;
    while i < len
        invariant
            i <= len,
            a.wf(),
            len == a.data().len(),
            1 <= scale_input,
            1 <= scale_output,
            out@.len() == i,
            forall|j: int|
                0 <= j < i ==> out@[j] == spec_rsqrt(a.data()[j] as int, scale_input as int, scale_output as int),
        decreases len - i,
    {
        let x = a.get_flat(i);
        out.push(rsqrt_scalar(x, scale_input as i128, scale_output as i128));
        i = i + 1;
    }
    a.with_data(out)
}

} // verus!
