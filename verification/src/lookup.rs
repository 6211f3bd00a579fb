//! The lookup-operator catalogue: elementwise non-linear operators
//! materialised as input/output tables at layout time.

use vstd::arithmetic::power2::pow2;
use vstd::prelude::*;

use crate::nonlin::{
    const_div, erffunc, exp, greater_than, leakyrelu, recip, rsqrt, sigmoid, spec_const_div,
    spec_erf, spec_exp_scaled, spec_greater_than, spec_leakyrelu, spec_recip, spec_rsqrt,
    spec_sigmoid, spec_sqrt, spec_tanh, sqrt, tanh, Frac,
};
use crate::scale::scale_to_multiplier;
use crate::tensor::{Tensor, TensorError};

verus! {

/// An input-scale / output-scale pair carried by the scaled
/// non-linear operators.
#[derive(Clone, Copy, Debug, PartialEq, Eq, Hash, PartialOrd, Ord, Structural)]
pub struct ScalePair {
    /// Multiplier the inputs arrive scaled by.
    pub input: usize,
    /// Multiplier the outputs leave scaled by.
    pub output: usize,
}

/// The elementwise non-linear operators that the circuit expresses
/// through lookup tables.
#[derive(Clone, Copy, Debug, PartialEq, Eq, Hash, PartialOrd, Ord, Structural)]
pub enum LookupOp {
    /// Division by a constant fraction.
    Div { denom: Frac },
    /// Rectified linear unit over the given scale divisor.
    ReLU { scale: usize },
    /// Square root between an input and an output scale.
    Sqrt { scales: ScalePair },
    /// Reciprocal square root between an input and an output scale.
    Rsqrt { scales: ScalePair },
    /// Scaled reciprocal.
    Recip { scale: usize },
    /// Rectified linear unit with a leak slope.
    LeakyReLU { scale: usize, slope: Frac },
    /// Logistic function between an input and an output scale.
    Sigmoid { scales: ScalePair },
    /// Exponential between an input and an output scale.
    Exp { scales: ScalePair },
    /// Hyperbolic tangent between an input and an output scale.
    Tanh { scales: ScalePair },
    /// Error function between an input and an output scale.
    Erf { scales: ScalePair },
    /// Threshold comparison against a constant fraction.
    GreaterThan { a: Frac },
}

impl LookupOp {
    /// The operator's name, as a character sequence.
    pub open spec fn spec_name(&self) -> Seq<char> {
        match *self {
            LookupOp::GreaterThan { .. } => "GREATER_THAN"@,
            LookupOp::Recip { .. } => "RECIP"@,
            LookupOp::Div { .. } => "DIV"@,
            LookupOp::ReLU { .. } => "RELU"@,
            LookupOp::LeakyReLU { .. } => "LEAKY_RELU"@,
            LookupOp::Sigmoid { .. } => "SIGMOID"@,
            LookupOp::Sqrt { .. } => "SQRT"@,
            LookupOp::Tanh { .. } => "TANH"@,
            LookupOp::Erf { .. } => "ERF"@,
            LookupOp::Rsqrt { .. } => "RSQRT"@,
            LookupOp::Exp { .. } => "EXP"@,
        }
    }

    /// Validity of the operator's parameters: every scale divisor is
    /// positive and every fraction has a positive denominator.
    pub open spec fn wf(&self) -> bool {
        match *self {
            LookupOp::Div { denom } => denom.positive(),
            LookupOp::ReLU { scale } => scale >= 1,
            LookupOp::Sqrt { scales } => scales.input >= 1 && scales.output >= 1,
            LookupOp::Rsqrt { scales } => scales.input >= 1 && scales.output >= 1,
            LookupOp::Recip { scale } => scale >= 1,
            LookupOp::LeakyReLU { scale, slope } => scale >= 1 && slope.wf(),
            LookupOp::Sigmoid { scales } => scales.input >= 1 && scales.output >= 1,
            LookupOp::Exp { scales } => scales.input >= 1 && scales.output >= 1,
            LookupOp::Tanh { scales } => scales.input >= 1 && scales.output >= 1,
            LookupOp::Erf { scales } => scales.input >= 1 && scales.output >= 1,
            LookupOp::GreaterThan { a } => a.wf(),
        }
    }

    /// The exact integer value of the operator on one input.
    pub open spec fn spec_eval(&self, x: int) -> int {
        match *self {
            LookupOp::Div { denom } => spec_const_div(x, denom),
            LookupOp::ReLU { scale } => spec_leakyrelu(x, scale as int, Frac { num: 0, den: 1 }),
            LookupOp::Sqrt { scales } => spec_sqrt(x, scales.input as int, scales.output as int),
            LookupOp::Rsqrt { scales } => spec_rsqrt(x, scales.input as int, scales.output as int),
            LookupOp::Recip { scale } => spec_recip(x, scale as int),
            LookupOp::LeakyReLU { scale, slope } => spec_leakyrelu(x, scale as int, slope),
            LookupOp::Sigmoid { scales } => spec_sigmoid(x, scales.input as int, scales.output as int),
            LookupOp::Exp { scales } => spec_exp_scaled(x, scales.input as int, scales.output as int),
            LookupOp::Tanh { scales } => spec_tanh(x, scales.input as int, scales.output as int),
            LookupOp::Erf { scales } => spec_erf(x, scales.input as int, scales.output as int),
            LookupOp::GreaterThan { a } => spec_greater_than(x, a),
        }
    }

    /// Evaluates the operator elementwise over its first input tensor:
    /// the exact integer computation the circuit is constrained to
    /// reproduce.
    pub fn f(&self, x: &Vec<Tensor<i128>>) -> (r: Result<Tensor<i128>, TensorError>)
        requires
            self.wf(),
            x@.len() >= 1,
            x@[0].wf(),
        ensures
            match r {
                Ok(t) => {
                    &&& t.wf()
                    &&& t.shape() == x@[0].shape()
                    &&& t.data().len() == x@[0].data().len()
                    &&& forall|i: int|
                        0 <= i < t.data().len() ==> t.data()[i] == self.spec_eval(
                            x@[0].data()[i] as int,
                        )
                },
                Err(_) => false,
            },
    {
        let t = &x[0];
        match *self {
            LookupOp::Div { denom } => Ok(const_div(t, denom)),
            LookupOp::ReLU { scale } => Ok(leakyrelu(t, scale, Frac::new(0, 1))),
            LookupOp::Sqrt { scales } => Ok(sqrt(t, scales.input, scales.output)),
            LookupOp::Rsqrt { scales } => Ok(rsqrt(t, scales.input, scales.output)),
            LookupOp::Recip { scale } => Ok(recip(t, scale)),
            LookupOp::LeakyReLU { scale, slope } => Ok(leakyrelu(t, scale, slope)),
            LookupOp::Sigmoid { scales } => Ok(sigmoid(t, scales.input, scales.output)),
            LookupOp::Exp { scales } => Ok(exp(t, scales.input, scales.output)),
            LookupOp::Tanh { scales } => Ok(tanh(t, scales.input, scales.output)),
            LookupOp::Erf { scales } => Ok(erffunc(t, scales.input, scales.output)),
            LookupOp::GreaterThan { a } => Ok(greater_than(t, a)),
        }
    }

    /// Evaluates the operator on one input value.
    pub fn eval_scalar(&self, x: i128) -> (r: i128)
        requires
            self.wf(),
        ensures
            r == self.spec_eval(x as int),
    {
        match *self {
            LookupOp::Div { denom } => crate::nonlin::const_div_scalar(x, denom),
            LookupOp::ReLU { scale } => crate::nonlin::leakyrelu_scalar(
                x,
                scale_as_i128(scale),
                Frac::new(0, 1),
            ),
            LookupOp::Sqrt { scales } => crate::nonlin::sqrt_scalar(
                x,
                scale_as_i128(scales.input),
                scale_as_i128(scales.output),
            ),
            LookupOp::Rsqrt { scales } => crate::nonlin::rsqrt_scalar(
                x,
                scale_as_i128(scales.input),
                scale_as_i128(scales.output),
            ),
            LookupOp::Recip { scale } => crate::nonlin::recip_scalar(x, scale_as_i128(scale)),
            LookupOp::LeakyReLU { scale, slope } => crate::nonlin::leakyrelu_scalar(
                x,
                scale_as_i128(scale),
                slope,
            ),
            LookupOp::Sigmoid { scales } => crate::nonlin::sigmoid_scalar(
                x,
                scale_as_i128(scales.input),
                scale_as_i128(scales.output),
            ),
            LookupOp::Exp { scales } => crate::nonlin::exp_scalar(
                x,
                scale_as_i128(scales.input),
                scale_as_i128(scales.output),
            ),
            LookupOp::Tanh { scales } => crate::nonlin::tanh_scalar(
                x,
                scale_as_i128(scales.input),
                scale_as_i128(scales.output),
            ),
            LookupOp::Erf { scales } => crate::nonlin::erf_scalar(
                x,
                scale_as_i128(scales.input),
                scale_as_i128(scales.output),
            ),
            LookupOp::GreaterThan { a } => crate::nonlin::greater_than_scalar(x, a),
        }
    }

    /// A pair that is always present in the operator's table: input
    /// zero and its image.
    pub fn default_pair(&self) -> (r: (i128, i128))
        requires
            self.wf(),
        ensures
            r.0 == 0,
            r.1 == self.spec_eval(0),
    {
        let z = self.eval_scalar(0);
        (0, z)
    }

    /// The rescaled operator's parameters stay representable: every
    /// multiplier fits the machine word and every folded numerator
    /// stays in range.
    pub open spec fn rescale_ok(&self, in0: int, g: int) -> bool {
        match *self {
            LookupOp::Recip { .. } => pow2((in0 + g) as nat) <= usize::MAX,
            LookupOp::Div { denom } => in0 >= g && pow2((in0 - g) as nat) <= usize::MAX
                && denom.num * pow2((in0 - g) as nat) <= i128::MAX,
            LookupOp::ReLU { .. } => in0 >= g && pow2((in0 - g) as nat) <= usize::MAX,
            LookupOp::LeakyReLU { .. } => in0 >= g && pow2((in0 - g) as nat) <= usize::MAX,
            LookupOp::GreaterThan { a } => pow2(in0 as nat) <= usize::MAX && a.num * pow2(
                in0 as nat,
            ) <= i128::MAX && a.num * pow2(in0 as nat) >= i128::MIN,
            _ => pow2(in0 as nat) <= usize::MAX && pow2(g as nat) <= usize::MAX,
        }
    }

    /// The operator with the scale ratios of the current input and
    /// circuit scales folded into its parameters.
    pub open spec fn spec_rescale(&self, in0: int, g: int) -> LookupOp {
        match *self {
            LookupOp::Recip { .. } => LookupOp::Recip { scale: pow2((in0 + g) as nat) as usize },
            LookupOp::Div { denom } => LookupOp::Div {
                denom: Frac {
                    num: (denom.num * pow2((in0 - g) as nat)) as i128,
                    den: denom.den,
                },
            },
            LookupOp::ReLU { .. } => LookupOp::ReLU { scale: pow2((in0 - g) as nat) as usize },
            LookupOp::LeakyReLU { slope, .. } => LookupOp::LeakyReLU {
                scale: pow2((in0 - g) as nat) as usize,
                slope,
            },
            LookupOp::Sigmoid { .. } => LookupOp::Sigmoid { scales: spec_rescaled_pair(in0, g) },
            LookupOp::Sqrt { .. } => LookupOp::Sqrt { scales: spec_rescaled_pair(in0, g) },
            LookupOp::Rsqrt { .. } => LookupOp::Rsqrt { scales: spec_rescaled_pair(in0, g) },
            LookupOp::Tanh { .. } => LookupOp::Tanh { scales: spec_rescaled_pair(in0, g) },
            LookupOp::Erf { .. } => LookupOp::Erf { scales: spec_rescaled_pair(in0, g) },
            LookupOp::Exp { .. } => LookupOp::Exp { scales: spec_rescaled_pair(in0, g) },
            LookupOp::GreaterThan { a } => LookupOp::GreaterThan {
                a: Frac { num: (a.num * pow2(in0 as nat)) as i128, den: a.den },
            },
        }
    }

    /// Folds the current input scale and the circuit scale into the
    /// operator's parameters, so that its table maps raw integers.
    pub fn rescale(&self, inputs_scale: &Vec<u32>, global_scale: u32) -> (r: LookupOp)
        requires
            self.wf(),
            inputs_scale@.len() >= 1,
            self.rescale_ok(inputs_scale@[0] as int, global_scale as int),
        ensures
            r == self.spec_rescale(inputs_scale@[0] as int, global_scale as int),
            r.wf(),
    {
        let in0 = inputs_scale[0];
        let g = global_scale;
        match *self {
            LookupOp::Recip { .. } => {
                proof {
                    lemma_scale_fits(in0 as int + g as int);
                }
                let m = scale_to_multiplier(in0 + g);
                LookupOp::Recip { scale: multiplier_to_usize(m) }
            },
            LookupOp::Div { denom } => {
                proof {
                    lemma_scale_fits(in0 as int - g as int);
                }
                let m = scale_to_multiplier(in0 - g);
                let mi = multiplier_to_usize(m) as i128;
                proof {
                    lemma_fold_in_range(denom.num as int, mi as int);
                }
                LookupOp::Div { denom: Frac::new(denom.num * mi, denom.den) }
            },
            LookupOp::ReLU { .. } => {
                proof {
                    lemma_scale_fits(in0 as int - g as int);
                }
                let m = scale_to_multiplier(in0 - g);
                LookupOp::ReLU { scale: multiplier_to_usize(m) }
            },
            LookupOp::LeakyReLU { slope, .. } => {
                proof {
                    lemma_scale_fits(in0 as int - g as int);
                }
                let m = scale_to_multiplier(in0 - g);
                LookupOp::LeakyReLU { scale: multiplier_to_usize(m), slope }
            },
            LookupOp::Sigmoid { .. } => LookupOp::Sigmoid { scales: rescaled_pair(in0, g) },
            LookupOp::Sqrt { .. } => LookupOp::Sqrt { scales: rescaled_pair(in0, g) },
            LookupOp::Rsqrt { .. } => LookupOp::Rsqrt { scales: rescaled_pair(in0, g) },
            LookupOp::Tanh { .. } => LookupOp::Tanh { scales: rescaled_pair(in0, g) },
            LookupOp::Erf { .. } => LookupOp::Erf { scales: rescaled_pair(in0, g) },
            LookupOp::Exp { .. } => LookupOp::Exp { scales: rescaled_pair(in0, g) },
            LookupOp::GreaterThan { a } => {
                proof {
                    lemma_scale_fits(in0 as int);
                }
                let m = scale_to_multiplier(in0);
                let mi = multiplier_to_usize(m) as i128;
                proof {
                    lemma_fold_in_range_signed(a.num as int, mi as int);
                }
                LookupOp::GreaterThan { a: Frac::new(a.num * mi, a.den) }
            },
        }
    }

    /// The operator's display and ordering name.
    pub fn as_str(&self) -> (r: &'static str)
        ensures
            r@ == self.spec_name(),
    {
        match *self {
            LookupOp::GreaterThan { .. } => "GREATER_THAN",
            LookupOp::Recip { .. } => "RECIP",
            LookupOp::Div { .. } => "DIV",
            LookupOp::ReLU { .. } => "RELU",
            LookupOp::LeakyReLU { .. } => "LEAKY_RELU",
            LookupOp::Sigmoid { .. } => "SIGMOID",
            LookupOp::Sqrt { .. } => "SQRT",
            LookupOp::Tanh { .. } => "TANH",
            LookupOp::Erf { .. } => "ERF",
            LookupOp::Rsqrt { .. } => "RSQRT",
            LookupOp::Exp { .. } => "EXP",
        }
    }

    /// The lookup tables the operator requires: itself.
    pub fn required_lookups(&self) -> (r: Vec<LookupOp>)
        ensures
            r@ =~= seq![*self],
    {
        let mut v: Vec<LookupOp> = Vec::new();
        v.push(*self);
        v
    }
}


/// A multiplier that fits the machine word has a scale exponent below
/// the word width.
proof fn lemma_scale_fits(s: int)
    requires
        0 <= s ==> pow2(s as nat) <= usize::MAX,
    ensures
        0 <= s ==> s <= 63,
        0 <= s ==> pow2(s as nat) >= 1,
{
    if 0 <= s {
        vstd::arithmetic::power2::lemma_pow2_pos(s as nat);
    }
    if 0 <= s && s >= 64 {
        assert(pow2(64nat) <= pow2(s as nat)) by {
            if s > 64 {
                vstd::arithmetic::power2::lemma_pow2_strictly_increases(64nat, s as nat);
            }
        }
        assert(pow2(64nat) == 0x1_0000_0000_0000_0000) by {
            vstd::arithmetic::power2::lemma2_to64();
        }
    }
}

/// A positive numerator folded with an in-range multiplier stays in
/// range.
proof fn lemma_fold_in_range(num: int, m: int)
    requires
        num >= 1,
        m >= 1,
        num * m <= i128::MAX,
    ensures
        1 <= num * m <= i128::MAX,
{
    assert(num * m >= 1) by (nonlinear_arith)
        requires
            num >= 1,
            m >= 1,
    ;
}

/// A signed numerator folded with an in-range multiplier stays in
/// range.
proof fn lemma_fold_in_range_signed(num: int, m: int)
    requires
        m >= 1,
        num * m <= i128::MAX,
        num * m >= i128::MIN,
    ensures
        i128::MIN <= num * m <= i128::MAX,
{
}

/// Narrows a power-of-two multiplier to the word it is known to fit.
fn multiplier_to_usize(m: u128) -> (r: usize)
    requires
        m <= usize::MAX,
        m >= 1,
    ensures
        r == m,
        r >= 1,
{
    m as usize
}

/// Both scales of a rescaled pair, as multipliers.
pub open spec fn spec_rescaled_pair(in0: int, g: int) -> ScalePair {
    ScalePair { input: pow2(in0 as nat) as usize, output: pow2(g as nat) as usize }
}

/// Computes the multiplier pair for the scaled transcendental
/// operators.
fn rescaled_pair(in0: u32, g: u32) -> (r: ScalePair)
    requires
        pow2(in0 as nat) <= usize::MAX,
        pow2(g as nat) <= usize::MAX,
    ensures
        r == spec_rescaled_pair(in0 as int, g as int),
        r.input >= 1,
        r.output >= 1,
{
    proof {
        lemma_scale_fits(in0 as int);
        lemma_scale_fits(g as int);
        vstd::arithmetic::power2::lemma_pow2_pos(in0 as nat);
        vstd::arithmetic::power2::lemma_pow2_pos(g as nat);
    }
    let mi = scale_to_multiplier(in0);
    let mo = scale_to_multiplier(g);
    ScalePair { input: multiplier_to_usize(mi), output: multiplier_to_usize(mo) }
}

/// Widens a scale divisor to the arithmetic word.
fn scale_as_i128(s: usize) -> (r: i128)
    requires
        s >= 1,
    ensures
        r == s,
        1 <= r <= 0x1_0000_0000_0000_0000,
{
    s as i128
}

} // verus!
