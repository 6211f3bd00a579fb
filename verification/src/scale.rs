//! Fixed-point scale arithmetic: the power-of-two multiplier attached
//! to a scale exponent, rounding division, and quantisation of exact
//! rational inputs into the integer domain.
//!
//! A value at scale `s` represents the real number `v / 2^s`.  Inputs
//! arrive as exact rationals `num / den`; quantising them multiplies by
//! the scale's multiplier and rounds half away from zero.

use vstd::arithmetic::div_mod::lemma_fundamental_div_mod;
use vstd::arithmetic::power2::{lemma_pow2_adds, lemma_pow2_pos, lemma_pow2_unfold, pow2};
use vstd::prelude::*;

use crate::tensor::abs1;

verus! {

/// Division of `a` by `b` rounded half away from zero: the magnitudes
/// are divided, the quotient is bumped when the remainder reaches half
/// the divisor, and the sign is reapplied.
pub open spec fn round_div(a: int, b: int) -> int {
    let q = abs1(a) / b;
    let r = abs1(a) % b;
    let m = if 2 * r >= b {
        q + 1
    } else {
        q
    };
    if a < 0 {
        -m
    } else {
        m
    }
}

/// The quantisation of the rational `num / den` at scale `s`: the
/// value is brought onto the `2^s` grid and rounded half away from
/// zero.
pub open spec fn spec_quantize(num: int, den: int, s: nat) -> int {
    round_div(num * pow2(s), den)
}

/// The multiplier attached to a scale exponent: `2^scale`.
pub fn scale_to_multiplier(scale: u32) -> (r: u128)
    requires
        scale <= 127,
    ensures
        r == pow2(scale as nat),
{
    let mut acc: u128 = 1;
    let mut i: u32 = 0;
    proof {
        assert(pow2(0) == 1) by {
            vstd::arithmetic::power2::lemma2_to64();
        }
    }
    while i < scale
        invariant
            i <= scale,
            scale <= 127,
            acc == pow2(i as nat),
        decreases scale - i,
    {
        proof {
            lemma_pow2_unfold(i as nat + 1);
            assert(pow2(i as nat + 1) < pow2(128nat)) by {
                vstd::arithmetic::power2::lemma_pow2_strictly_increases(i as nat + 1, 128nat);
            }
            assert(pow2(128nat) == pow2(64nat) * pow2(64nat)) by {
                lemma_pow2_adds(64nat, 64nat);
            }
            assert(pow2(64nat) == 0x1_0000_0000_0000_0000) by {
                vstd::arithmetic::power2::lemma2_to64();
            }
        }
        acc = acc * 2;
        i = i + 1;
    }
    acc
}

/// `mult` is a power of two no larger than `2^127`.
pub open spec fn is_scale_multiplier(mult: u128) -> bool {
    exists|s: nat| s <= 127 && mult == #[trigger] pow2(s)
}

/// The scale exponent a power-of-two multiplier stands for: the base
/// two logarithm.
pub fn mult_to_scale(mult: u128) -> (r: u32)
    requires
        is_scale_multiplier(mult),
    ensures
        r <= 127,
        mult == pow2(r as nat),
{
    let mut m = mult;
    let mut count: u32 = 0;
    proof {
        let s0 = choose|s: nat| s <= 127 && mult == #[trigger] pow2(s);
        assert(pow2(0) == 1) by {
            vstd::arithmetic::power2::lemma2_to64();
        }
        assert(mult == pow2(count as nat) * pow2(s0) && count + s0 <= 127);
    }
    while m > 1
        invariant
            exists|s: nat|
                #![trigger pow2(s)]
                m == pow2(s) && count + s <= 127 && mult == pow2(count as nat) * pow2(s),
        decreases m,
    {
        proof {
            let s = choose|s: nat|
                #![trigger pow2(s)]
                m == pow2(s) && count + s <= 127 && mult == pow2(count as nat) * pow2(s);
            if s == 0 {
                assert(pow2(0) == 1) by {
                    vstd::arithmetic::power2::lemma2_to64();
                }
                assert(false);
            }
            lemma_pow2_unfold(s);
            assert(m / 2 == pow2((s - 1) as nat));
            lemma_pow2_unfold(count as nat + 1);
            lemma_pow2_pos((s - 1) as nat);
            lemma_pow2_pos(count as nat);
            assert(pow2(count as nat) * pow2(s) == (2 * pow2(count as nat)) * pow2(
                (s - 1) as nat,
            )) by (nonlinear_arith)
                requires
                    pow2(s) == 2 * pow2((s - 1) as nat),
            ;
            assert(mult == pow2(count as nat + 1) * pow2((s - 1) as nat));
        }
        m = m / 2;
        count = count + 1;
    }
    proof {
        let s = choose|s: nat|
            #![trigger pow2(s)]
            m == pow2(s) && count + s <= 127 && mult == pow2(count as nat) * pow2(s);
        lemma_pow2_pos(s);
        assert(m == 1);
        assert(mult == pow2(count as nat) * 1);
    }
    count
}

/// The rounded quotient misses the exact quotient by at most half the
/// divisor: `|round_div(a, b) * b - a| * 2 <= b`.
pub proof fn lemma_round_div_error(a: int, b: int)
    requires
        b >= 1,
    ensures
        2 * abs1(round_div(a, b) * b - a) <= b,
{
    let p = abs1(a);
    let q = p / b;
    let r = p % b;
    lemma_fundamental_div_mod(p, b);
    assert(p == q * b + r);
    if 2 * r >= b {
        assert((q + 1) * b == q * b + b) by (nonlinear_arith);
        if a < 0 {
            assert(round_div(a, b) * b - a == -((q + 1) * b) + p) by (nonlinear_arith)
                requires
                    round_div(a, b) == -(q + 1),
                    a == -p,
            ;
        }
    } else {
        if a < 0 {
            assert(round_div(a, b) * b - a == -(q * b) + p) by (nonlinear_arith)
                requires
                    round_div(a, b) == -q,
                    a == -p,
            ;
        }
    }
}

/// Round-trip quantisation: quantising the rational `num / den` at
/// scale `s` and reading the result back over the `2^s` grid lands
/// within half a grid step of the input.  Multiplied out over the
/// common denominator `den * 2^s`, the difference between
/// `quantize / 2^s` and `num / den` is at most `den / 2` parts in
/// `den * 2^s` — within `2^(-s)` of the input.
pub proof fn lemma_quantize_round_trip(num: int, den: int, s: nat)
    requires
        den >= 1,
    ensures
        2 * abs1(spec_quantize(num, den, s) * den - num * pow2(s)) <= den,
{
    lemma_round_div_error(num * pow2(s), den);
}

/// Truncating division rounded half away from zero, on machine
/// integers.
pub fn round_div_i128(a: i128, b: i128) -> (r: i128)
    requires
        b >= 1,
        a > i128::MIN,
    ensures
        r == round_div(a as int, b as int),
        abs1(r as int) <= abs1(a as int),
{
    let neg = a < 0;
    let pa: u128 = if neg {
        (-a) as u128
    } else {
        a as u128
    };
    let bb = b as u128;
    let q = pa / bb;
    let r0 = pa % bb;
    proof {
        lemma_fundamental_div_mod(pa as int, bb as int);
        assert(q * bb >= q) by (nonlinear_arith)
            requires
                bb >= 1,
                q >= 0,
        ;
        assert(q * bb == bb * q) by (nonlinear_arith);
        assert(pa == q * bb + r0);
        assert(pa == abs1(a as int));
        assert(pa <= i128::MAX);
        assert(q == abs1(a as int) / (b as int));
        assert(r0 == abs1(a as int) % (b as int));
    }
    let m = if r0 >= bb - r0 {
        proof {
            assert(2 * r0 >= bb);
            assert(r0 >= 1);
            assert(q + 1 <= q * bb + r0);
        }
        q + 1
    } else {
        proof {
            assert(q <= q * bb + r0);
        }
        q
    };
    let out = m as i128;
    if neg {
        -out
    } else {
        out
    }
}

/// Quantises the exact rational `num / den` at the given scale,
/// rounding half away from zero.
pub fn quantize_rational(num: i128, den: i128, scale: u32) -> (r: i128)
    requires
        den >= 1,
        scale <= 126,
        abs1(num as int) * pow2(scale as nat) <= i128::MAX,
    ensures
        r == spec_quantize(num as int, den as int, scale as nat),
        abs1(r as int) <= abs1(num as int) * pow2(scale as nat),
{
    let m = scale_to_multiplier(scale);
    proof {
        lemma_pow2_pos(scale as nat);
        assert(pow2(scale as nat) < pow2(127nat)) by {
            vstd::arithmetic::power2::lemma_pow2_strictly_increases(scale as nat, 127nat);
        }
        assert(pow2(127nat) == pow2(64nat) * pow2(63nat)) by {
            lemma_pow2_adds(64nat, 63nat);
        }
        assert(pow2(64nat) == 0x1_0000_0000_0000_0000 && pow2(63nat)
            == 0x8000_0000_0000_0000) by {
            vstd::arithmetic::power2::lemma2_to64();
            vstd::arithmetic::power2::lemma2_to64_rest();
        }
        let v = num as int;
        let p = pow2(scale as nat) as int;
        assert(abs1(v * p) == abs1(v) * p && (v >= 0 ==> v * p >= 0) && (v < 0 ==> v * p <= 0))
            by (nonlinear_arith)
            requires
                p >= 1,
        ;
    }
    let prod = num * (m as i128);
    round_div_i128(prod, den)
}

} // verus!
