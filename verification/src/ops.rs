//! The operator object model: a closed tagged family of operator
//! kinds with one uniform contract — forward evaluation, scale
//! arithmetic, lookup requirements and rescaling.

use vstd::arithmetic::power::pow;
use vstd::arithmetic::power2::pow2;
use vstd::prelude::*;

use crate::lookup::LookupOp;
use crate::nonlin::Frac;
use crate::tensor::{
    add_in_range_d, broadcast_compatible, broadcast_el, broadcast_el_d, mul_in_range_d,
    shape_volume, spec_broadcasted_shape, sub_in_range_d, Tensor, TensorError,
};

verus! {

/// A placeholder for the model's input tensors.
#[derive(Clone, Copy, Debug, PartialEq, Eq, Hash, PartialOrd, Ord, Structural)]
pub struct Input;

/// An operation the catalogue does not recognise.
#[derive(Clone, Copy, Debug, PartialEq, Eq, Hash, PartialOrd, Ord, Structural)]
pub struct Unknown;

/// A constant tensor baked into the graph, already quantised to the
/// integer domain together with the scale it was quantised at.
#[derive(Clone, Debug)]
pub struct Constant {
    /// The quantised values.
    pub values: Tensor<i128>,
    /// The scale the values are quantised at.
    pub quantized_scale: u32,
}

impl Constant {
    /// Builds a constant from quantised values.
    pub fn new(values: Tensor<i128>, quantized_scale: u32) -> (r: Constant)
        ensures
            r.values == values,
            r.quantized_scale == quantized_scale,
    {
        Constant { values, quantized_scale }
    }
}

/// The polynomial operators: arithmetic the base gate expresses
/// directly, without a lookup table.
#[derive(Clone, Copy, Debug, PartialEq, Eq, Hash, PartialOrd, Ord, Structural)]
pub enum PolyOp {
    /// Broadcast elementwise addition of two operands.
    Add,
    /// Broadcast elementwise subtraction of two operands.
    Sub,
    /// Broadcast elementwise multiplication of two operands.
    Mult,
    /// Matrix product of two rank-two operands.
    Matmul,
    /// Elementwise power of one operand.
    Pow(u32),
    /// Base-ary packing of one operand into a single value.
    Pack(u32, u32),
}

/// Permitted slack when binding a computed output to a public
/// instance value.
#[derive(Clone, Copy, Debug, PartialEq, Eq, Hash, PartialOrd, Ord, Structural)]
pub enum Tolerance {
    /// Elementwise absolute difference bound.
    Abs {
        /// Largest allowed difference.
        val: usize,
    },
    /// Difference within a fraction of the instance value, expressed
    /// over the scale multiplier.
    Percentage {
        /// The allowed fraction.
        val: Frac,
        /// The scale multiplier the fraction is expressed over.
        scale: usize,
    },
}

/// The hybrid operators: compositions of base gates and lookups.
#[derive(Clone, Copy, Debug, PartialEq, Eq, Hash, PartialOrd, Ord, Structural)]
pub enum HybridOp {
    /// Bind a tensor to a reference within a tolerance.
    RangeCheck(Tolerance),
}

/// A wrapper for an operation whose inputs have been rescaled: each
/// input is multiplied by its own power-of-two multiplier before the
/// inner operation runs.
#[derive(Debug)]
pub struct Rescaled {
    /// The operation to be rescaled.
    pub inner: Box<OpKind>,
    /// Per-input index and multiplier.
    pub scale: Vec<(usize, u128)>,
}

/// One operator kind of the closed catalogue, with the uniform
/// contract implemented as methods on the variant.
#[derive(Debug)]
pub enum OpKind {
    /// A model input.
    Input(Input),
    /// A baked-in constant.
    Const(Constant),
    /// A polynomial operator.
    Poly(PolyOp),
    /// A lookup-table operator.
    Lookup(LookupOp),
    /// A hybrid operator.
    Hybrid(HybridOp),
    /// A wrapped operator with rescaled inputs.
    Rescaled(Rescaled),
    /// An unrecognised operator.
    Unknown(Unknown),
}

/// The packed value of a buffer prefix: the base-ary digits summed
/// with their place values.
pub open spec fn spec_pack_prefix(data: Seq<i128>, base: int, i: int) -> int
    decreases i,
{
    if i <= 0 {
        0
    } else {
        spec_pack_prefix(data, base, i - 1) + data[i - 1] * pow(base, (i - 1) as nat)
    }
}

/// Every partial packing stays in the machine range.
pub open spec fn pack_in_range(data: Seq<i128>, base: int) -> bool {
    &&& forall|i: int|
        0 <= i <= data.len() ==> i128::MIN <= #[trigger] spec_pack_prefix(data, base, i)
            <= i128::MAX
    &&& forall|i: int|
        0 <= i < data.len() ==> i128::MIN <= #[trigger] pow(base, i as nat) <= i128::MAX
            && i128::MIN <= data[i] * pow(base, i as nat) <= i128::MAX
}

/// Validity of an operator's own parameters; for a wrapper this
/// includes the wrapped operator.
pub open spec fn op_wf(op: OpKind) -> bool
    decreases op,
{
    match op {
        OpKind::Input(_) => true,
        OpKind::Const(c) => c.values.wf(),
        OpKind::Poly(_) => true,
        OpKind::Lookup(l) => l.wf(),
        OpKind::Hybrid(h) => match h {
            HybridOp::RangeCheck(t) => match t {
                Tolerance::Abs { .. } => true,
                Tolerance::Percentage { val, .. } => val.wf(),
            },
        },
        OpKind::Rescaled(r) => op_wf(*r.inner) && !(*r.inner is Rescaled),
        OpKind::Unknown(_) => true,
    }
}

/// The shape the forward evaluation will produce from the given input
/// shapes.
pub open spec fn spec_out_shape(op: OpKind, shapes: Seq<Seq<usize>>) -> Seq<usize>
    decreases op,
{
    match op {
        OpKind::Input(_) => shapes[0],
        OpKind::Const(c) => c.values.shape(),
        OpKind::Poly(p) => match p {
            PolyOp::Add => spec_broadcasted_shape(shapes[0], shapes[1]),
            PolyOp::Sub => spec_broadcasted_shape(shapes[0], shapes[1]),
            PolyOp::Mult => spec_broadcasted_shape(shapes[0], shapes[1]),
            PolyOp::Matmul => seq![shapes[0][0], shapes[1][1]],
            PolyOp::Pow(_) => shapes[0],
            PolyOp::Pack(_, _) => seq![1usize],
        },
        OpKind::Lookup(_) => shapes[0],
        OpKind::Hybrid(_) => shapes[0],
        OpKind::Rescaled(r) => spec_out_shape(*r.inner, shapes),
        OpKind::Unknown(_) => shapes[0],
    }
}

/// The shapes of a sequence of tensors.
pub open spec fn shapes_of(ts: Seq<Tensor<i128>>) -> Seq<Seq<usize>> {
    ts.map_values(|t: Tensor<i128>| t.shape())
}

/// The data buffers of a sequence of tensors.
pub open spec fn datas_of(ts: Seq<Tensor<i128>>) -> Seq<Seq<i128>> {
    ts.map_values(|t: Tensor<i128>| t.data())
}

/// Each input buffer multiplied elementwise by its per-input
/// multiplier.
pub open spec fn scaled_datas(datas: Seq<Seq<i128>>, scale: Seq<(usize, u128)>) -> Seq<Seq<i128>> {
    Seq::new(
        datas.len(),
        |i: int| Seq::new(datas[i].len(), |j: int| (datas[i][j] * scale[i].1) as i128),
    )
}

/// The operator has no forward evaluation: constants and unknown
/// operators, also behind a rescaling wrapper.
pub open spec fn is_unevaluable(op: OpKind) -> bool
    decreases op,
{
    match op {
        OpKind::Const(_) => true,
        OpKind::Unknown(_) => true,
        OpKind::Rescaled(r) => is_unevaluable(*r.inner),
        _ => false,
    }
}

/// The running dot product of row `i` of the left operand and
/// column `j` of the right one, over the first `t` of the `kk`
/// inner positions; `nn` is the right operand's width.
pub open spec fn spec_dot(
    a: Seq<i128>,
    b: Seq<i128>,
    kk: int,
    nn: int,
    i: int,
    j: int,
    t: int,
) -> int
    decreases t,
{
    if t <= 0 {
        0
    } else {
        spec_dot(a, b, kk, nn, i, j, t - 1) + a[i * kk + (t - 1)] * b[(t - 1) * nn + j]
    }
}

/// The matrix product stays in the machine range: every partial dot
/// product and every term of it.
pub open spec fn matmul_in_range(a: Seq<i128>, ash: Seq<usize>, b: Seq<i128>, bsh: Seq<usize>) -> bool {
    forall|i: int, j: int, t: int|
        #![trigger spec_dot(a, b, ash[1] as int, bsh[1] as int, i, j, t)]
        0 <= i < ash[0] && 0 <= j < bsh[1] && 0 <= t <= ash[1] ==> i128::MIN <= spec_dot(
            a,
            b,
            ash[1] as int,
            bsh[1] as int,
            i,
            j,
            t,
        ) <= i128::MAX && (t < ash[1] ==> i128::MIN <= a[i * (ash[1] as int) + t] * b[t * (
        bsh[1] as int) + j] <= i128::MAX)
}

/// The buffers and shapes admit the operator's forward evaluation:
/// arities match, the buffers fill their shapes, broadcasts are
/// compatible, and no intermediate leaves the machine range.
pub open spec fn f_ok_d(op: OpKind, datas: Seq<Seq<i128>>, shapes: Seq<Seq<usize>>) -> bool
    decreases op,
{
    &&& op_wf(op)
    &&& datas.len() == shapes.len()
    &&& forall|i: int|
        0 <= i < datas.len() ==> (#[trigger] datas[i]).len() == shape_volume(shapes[i])
    &&& match op {
        OpKind::Input(_) => datas.len() == 1,
        OpKind::Const(_) => true,
        OpKind::Poly(p) => match p {
            PolyOp::Add => {
                &&& datas.len() == 2
                &&& broadcast_compatible(shapes[0], shapes[1])
                &&& shape_volume(spec_broadcasted_shape(shapes[0], shapes[1])) <= usize::MAX
                &&& add_in_range_d(datas[0], shapes[0], datas[1], shapes[1])
            },
            PolyOp::Sub => {
                &&& datas.len() == 2
                &&& broadcast_compatible(shapes[0], shapes[1])
                &&& shape_volume(spec_broadcasted_shape(shapes[0], shapes[1])) <= usize::MAX
                &&& sub_in_range_d(datas[0], shapes[0], datas[1], shapes[1])
            },
            PolyOp::Mult => {
                &&& datas.len() == 2
                &&& broadcast_compatible(shapes[0], shapes[1])
                &&& shape_volume(spec_broadcasted_shape(shapes[0], shapes[1])) <= usize::MAX
                &&& mul_in_range_d(datas[0], shapes[0], datas[1], shapes[1])
            },
            PolyOp::Matmul => {
                &&& datas.len() == 2
                &&& shapes[0].len() == 2
                &&& shapes[1].len() == 2
                &&& shapes[0][1] == shapes[1][0]
                &&& (shapes[0][0] as int) * (shapes[1][1] as int) <= usize::MAX
                &&& matmul_in_range(datas[0], shapes[0], datas[1], shapes[1])
            },
            PolyOp::Pow(n) => {
                &&& datas.len() == 1
                &&& forall|i: int|
                    #![trigger datas[0][i]]
                    0 <= i < datas[0].len() ==> crate::tensor::abs1(
                        pow(datas[0][i] as int, crate::tensor::pow_exp(n)),
                    ) <= i128::MAX
            },
            PolyOp::Pack(base, _) => {
                &&& datas.len() == 1
                &&& pack_in_range(datas[0], base as int)
            },
        },
        OpKind::Lookup(_) => datas.len() == 1,
        OpKind::Hybrid(_) => datas.len() >= 1,
        OpKind::Rescaled(r) => {
            &&& r.scale@.len() == datas.len()
            &&& forall|i: int, j: int|
                #![trigger datas[i][j]]
                0 <= i < datas.len() && 0 <= j < datas[i].len() ==> i128::MIN <= datas[i][j] * (
                r.scale@[i].1) <= i128::MAX
            &&& f_ok_d(*r.inner, scaled_datas(datas, r.scale@), shapes)
        },
        OpKind::Unknown(_) => true,
    }
}

/// The inputs admit the operator's forward evaluation.
pub open spec fn f_ok(op: OpKind, inputs: Seq<Tensor<i128>>) -> bool {
    &&& forall|i: int| 0 <= i < inputs.len() ==> (#[trigger] inputs[i]).wf()
    &&& f_ok_d(op, datas_of(inputs), shapes_of(inputs))
}

/// The exact buffer the operator's forward evaluation produces from
/// the given input buffers and shapes.
pub open spec fn spec_f_data(op: OpKind, datas: Seq<Seq<i128>>, shapes: Seq<Seq<usize>>) -> Seq<
    i128,
>
    decreases op,
{
    match op {
        OpKind::Input(_) => datas[0],
        OpKind::Const(_) => Seq::empty(),
        OpKind::Poly(p) => match p {
            PolyOp::Add => {
                let s = spec_broadcasted_shape(shapes[0], shapes[1]);
                Seq::new(
                    shape_volume(s) as nat,
                    |k: int|
                        (broadcast_el_d(datas[0], shapes[0], s, k) + broadcast_el_d(
                            datas[1],
                            shapes[1],
                            s,
                            k,
                        )) as i128,
                )
            },
            PolyOp::Sub => {
                let s = spec_broadcasted_shape(shapes[0], shapes[1]);
                Seq::new(
                    shape_volume(s) as nat,
                    |k: int|
                        (broadcast_el_d(datas[0], shapes[0], s, k) - broadcast_el_d(
                            datas[1],
                            shapes[1],
                            s,
                            k,
                        )) as i128,
                )
            },
            PolyOp::Mult => {
                let s = spec_broadcasted_shape(shapes[0], shapes[1]);
                Seq::new(
                    shape_volume(s) as nat,
                    |k: int|
                        (broadcast_el_d(datas[0], shapes[0], s, k) * broadcast_el_d(
                            datas[1],
                            shapes[1],
                            s,
                            k,
                        )) as i128,
                )
            },
            PolyOp::Matmul => {
                let nn = shapes[1][1] as int;
                let kk = shapes[0][1] as int;
                Seq::new(
                    ((shapes[0][0] as int) * nn) as nat,
                    |p: int| spec_dot(datas[0], datas[1], kk, nn, p / nn, p % nn, kk) as i128,
                )
            },
            PolyOp::Pow(n) => Seq::new(
                datas[0].len(),
                |k: int| pow(datas[0][k] as int, crate::tensor::pow_exp(n)) as i128,
            ),
            PolyOp::Pack(base, _) => seq![
                spec_pack_prefix(datas[0], base as int, datas[0].len() as int) as i128,
            ],
        },
        OpKind::Lookup(l) => Seq::new(
            datas[0].len(),
            |k: int| l.spec_eval(datas[0][k] as int) as i128,
        ),
        OpKind::Hybrid(_) => datas[0],
        OpKind::Rescaled(r) => spec_f_data(*r.inner, scaled_datas(datas, r.scale@), shapes),
        OpKind::Unknown(_) => Seq::empty(),
    }
}

/// The scale exponent of a power-of-two multiplier.
pub open spec fn log2m(m: u128) -> nat {
    choose|s: nat| pow2(s) == m
}

/// A power-of-two multiplier has exactly one exponent.
pub proof fn lemma_log2m_unique(m: u128, s: nat)
    requires
        pow2(s) == m,
    ensures
        log2m(m) == s,
{
    let t = log2m(m);
    assert(pow2(t) == m);
    if t < s {
        vstd::arithmetic::power2::lemma_pow2_strictly_increases(t, s);
    }
    if s < t {
        vstd::arithmetic::power2::lemma_pow2_strictly_increases(s, t);
    }
}

/// The input scales of a rescaled wrapper after its multipliers are
/// folded in: each gains the multiplier's exponent.
pub open spec fn adjusted_scales(in_scales: Seq<u32>, scale: Seq<(usize, u128)>) -> Seq<u32> {
    Seq::new(in_scales.len(), |i: int| (in_scales[i] + log2m(scale[i].1)) as u32)
}

/// The output scale an operator derives from its input scales and the
/// circuit's global scale.
pub open spec fn spec_out_scale(op: OpKind, in_scales: Seq<u32>, g: u32) -> int
    decreases op,
{
    match op {
        OpKind::Poly(p) => match p {
            PolyOp::Add => in_scales[0] as int,
            PolyOp::Sub => in_scales[0] as int,
            PolyOp::Mult => in_scales[0] + in_scales[1],
            PolyOp::Matmul => in_scales[0] + in_scales[1],
            PolyOp::Pow(n) => n * in_scales[0],
            PolyOp::Pack(_, _) => in_scales[0] as int,
        },
        OpKind::Rescaled(r) => spec_out_scale(*r.inner, adjusted_scales(in_scales, r.scale@), g),
        _ => g as int,
    }
}

/// The input scales admit the scale derivation: arities match, the
/// multipliers are powers of two, and the result fits the scale word.
pub open spec fn out_scale_ok(op: OpKind, in_scales: Seq<u32>, g: u32) -> bool
    decreases op,
{
    match op {
        OpKind::Poly(p) => match p {
            PolyOp::Add => in_scales.len() >= 1,
            PolyOp::Sub => in_scales.len() >= 1,
            PolyOp::Mult => in_scales.len() >= 2 && in_scales[0] + in_scales[1] <= u32::MAX,
            PolyOp::Matmul => in_scales.len() >= 2 && in_scales[0] + in_scales[1] <= u32::MAX,
            PolyOp::Pow(n) => in_scales.len() >= 1 && n * in_scales[0] <= u32::MAX,
            PolyOp::Pack(_, _) => in_scales.len() >= 1,
        },
        OpKind::Rescaled(r) => {
            &&& r.scale@.len() == in_scales.len()
            &&& forall|i: int|
                0 <= i < in_scales.len() ==> crate::scale::is_scale_multiplier(
                    #[trigger] r.scale@[i].1,
                ) && in_scales[i] + log2m(r.scale@[i].1) <= u32::MAX
            &&& out_scale_ok(*r.inner, adjusted_scales(in_scales, r.scale@), g)
        },
        _ => true,
    }
}

/// The lookup tables an operator requires.
pub open spec fn spec_required_lookups(op: OpKind) -> Seq<LookupOp>
    decreases op,
{
    match op {
        OpKind::Lookup(l) => seq![l],
        OpKind::Rescaled(r) => spec_required_lookups(*r.inner),
        _ => Seq::empty(),
    }
}

/// An operator kind's name, as a character sequence; a rescaling
/// wrapper shows its wrapped operator's name.
pub open spec fn spec_op_name(op: OpKind) -> Seq<char>
    decreases op,
{
    match op {
        OpKind::Input(_) => "Input"@,
        OpKind::Const(_) => "CONST"@,
        OpKind::Poly(p) => match p {
            PolyOp::Add => "ADD"@,
            PolyOp::Sub => "SUB"@,
            PolyOp::Mult => "MULT"@,
            PolyOp::Matmul => "MATMUL"@,
            PolyOp::Pow(_) => "POW"@,
            PolyOp::Pack(_, _) => "PACK"@,
        },
        OpKind::Lookup(l) => l.spec_name(),
        OpKind::Hybrid(h) => match h {
            HybridOp::RangeCheck(_) => "RANGECHECK"@,
        },
        OpKind::Rescaled(r) => spec_op_name(*r.inner),
        OpKind::Unknown(_) => "Unknown"@,
    }
}

impl OpKind {
    /// Forward evaluation: the exact integer computation the circuit
    /// will be constrained to reproduce.  Constants and unknown
    /// operators do not evaluate and report the wrong-method error.
    #[verifier::rlimit(60)]
    pub fn f(&self, inputs: &Vec<Tensor<i128>>) -> (r: Result<Tensor<i128>, TensorError>)
        requires
            f_ok(*self, inputs@),
        ensures
            match r {
                Ok(t) => {
                    &&& t.wf()
                    &&& t.shape() == spec_out_shape(*self, shapes_of(inputs@))
                    &&& t.data() == spec_f_data(*self, datas_of(inputs@), shapes_of(inputs@))
                },
                Err(e) => {
                    &&& e == TensorError::WrongMethod
                    &&& is_unevaluable(*self)
                },
            },
        decreases *self,
    {
        proof {
            assert(shapes_of(inputs@).len() == inputs@.len());
            assert(datas_of(inputs@).len() == inputs@.len());
            assert(forall|i: int|
                0 <= i < inputs@.len() ==> #[trigger] shapes_of(inputs@)[i] == inputs@[i].shape()
                    && datas_of(inputs@)[i] == inputs@[i].data());
        }
        match self {
            OpKind::Input(_) => {
                let t = inputs[0].clone();
                Ok(t)
            },
            OpKind::Const(_) => Err(TensorError::WrongMethod),
            OpKind::Poly(p) => {
                match p {
                    PolyOp::Add => {
                        let t = match inputs[0].add(&inputs[1]) {
                            Ok(t) => t,
                            Err(e) => {
                                proof {
                                    assert(false);
                                }
                                return Err(e);
                            },
                        };
                        proof {
                            assert(t.data() =~= spec_f_data(
                                *self,
                                datas_of(inputs@),
                                shapes_of(inputs@),
                            ));
                        }
                        Ok(t)
                    },
                    PolyOp::Sub => {
                        let t = match inputs[0].sub(&inputs[1]) {
                            Ok(t) => t,
                            Err(e) => {
                                proof {
                                    assert(false);
                                }
                                return Err(e);
                            },
                        };
                        proof {
                            assert(t.data() =~= spec_f_data(
                                *self,
                                datas_of(inputs@),
                                shapes_of(inputs@),
                            ));
                        }
                        Ok(t)
                    },
                    PolyOp::Mult => {
                        let t = match inputs[0].mul(&inputs[1]) {
                            Ok(t) => t,
                            Err(e) => {
                                proof {
                                    assert(false);
                                }
                                return Err(e);
                            },
                        };
                        proof {
                            assert(t.data() =~= spec_f_data(
                                *self,
                                datas_of(inputs@),
                                shapes_of(inputs@),
                            ));
                        }
                        Ok(t)
                    },
                    PolyOp::Matmul => {
                        let t = matmul_tensor(&inputs[0], &inputs[1]);
                        proof {
                            assert(shapes_of(inputs@)[0] == inputs@[0].shape());
                            assert(shapes_of(inputs@)[1] == inputs@[1].shape());
                            assert(t.data() =~= spec_f_data(
                                *self,
                                datas_of(inputs@),
                                shapes_of(inputs@),
                            ));
                            assert(t.shape() =~= spec_out_shape(*self, shapes_of(inputs@)));
                        }
                        Ok(t)
                    },
                    PolyOp::Pow(n) => {
                        let t = match inputs[0].pow(*n) {
                            Ok(t) => t,
                            Err(e) => {
                                proof {
                                    assert(false);
                                }
                                return Err(e);
                            },
                        };
                        proof {
                            assert(t.data() =~= spec_f_data(
                                *self,
                                datas_of(inputs@),
                                shapes_of(inputs@),
                            ));
                        }
                        Ok(t)
                    },
                    PolyOp::Pack(base, _) => {
                        let t = pack_tensor(&inputs[0], *base);
                        proof {
                            assert(t.data() =~= spec_f_data(
                                *self,
                                datas_of(inputs@),
                                shapes_of(inputs@),
                            ));
                        }
                        Ok(t)
                    },
                }
            },
            OpKind::Lookup(l) => {
                let t = match l.f(inputs) {
                    Ok(t) => t,
                    Err(e) => {
                        proof {
                            assert(false);
                        }
                        return Err(e);
                    },
                };
                proof {
                    assert(t.data() =~= spec_f_data(*self, datas_of(inputs@), shapes_of(inputs@)));
                }
                Ok(t)
            },
            OpKind::Hybrid(_) => {
                let t = inputs[0].clone();
                Ok(t)
            },
            OpKind::Rescaled(r) => {
                let ghost sdatas = scaled_datas(datas_of(inputs@), r.scale@);
                let n = inputs.len();
                let mut mid: Vec<Tensor<i128>> = Vec::new();
                let mut i: usize = 0;
                while i < n
                    invariant
                        i <= n,
                        n == inputs@.len(),
                        f_ok(OpKind::Rescaled(*r), inputs@),
                        sdatas == scaled_datas(datas_of(inputs@), r.scale@),
                        r.scale@.len() == n,
                        mid@.len() == i,
                        forall|k: int|
                            #![trigger mid@[k]]
                            0 <= k < i ==> {
                                &&& mid@[k].wf()
                                &&& mid@[k].shape() == inputs@[k].shape()
                                &&& mid@[k].data() == sdatas[k]
                            },
                    decreases n - i,
                {
                    proof {
                        assert(datas_of(inputs@)[i as int] == inputs@[i as int].data());
                        assert(shapes_of(inputs@)[i as int] == inputs@[i as int].shape());
                        assert(forall|j: int|
                            0 <= j < inputs@[i as int].data().len() ==> i128::MIN <= #[trigger] (
                            datas_of(inputs@)[i as int][j]) * (r.scale@[i as int].1)
                                <= i128::MAX);
                    }
                    let m = match crate::tensor::rescale(&inputs[i], r.scale[i].1) {
                        Ok(m) => m,
                        Err(e) => {
                            proof {
                                assert(false);
                            }
                            return Err(e);
                        },
                    };
                    proof {
                        assert(m.data() =~= sdatas[i as int]);
                    }
                    mid.push(m);
                    i = i + 1;
                }
                proof {
                    assert(datas_of(mid@) =~= sdatas);
                    assert(shapes_of(mid@) =~= shapes_of(inputs@));
                    assert(f_ok(*r.inner, mid@));
                }
                let t = match r.inner.f(&mid) {
                    Ok(t) => t,
                    Err(e) => {
                        return Err(e);
                    },
                };
                Ok(t)
            },
            OpKind::Unknown(_) => Err(TensorError::WrongMethod),
        }
    }

    /// The operator's display and ordering name.
    pub fn as_str(&self) -> (r: &'static str)
        ensures
            r@ == spec_op_name(*self),
        decreases *self,
    {
        match self {
            OpKind::Input(_) => "Input",
            OpKind::Const(_) => "CONST",
            OpKind::Poly(p) => match p {
                PolyOp::Add => "ADD",
                PolyOp::Sub => "SUB",
                PolyOp::Mult => "MULT",
                PolyOp::Matmul => "MATMUL",
                PolyOp::Pow(_) => "POW",
                PolyOp::Pack(_, _) => "PACK",
            },
            OpKind::Lookup(l) => l.as_str(),
            OpKind::Hybrid(h) => match h {
                HybridOp::RangeCheck(_) => "RANGECHECK",
            },
            OpKind::Rescaled(r) => r.inner.as_str(),
            OpKind::Unknown(_) => "Unknown",
        }
    }

    /// The scale of the operator's output, derived from the input
    /// scales after the fixed-point rescaling.
    pub fn out_scale(&self, in_scales: &Vec<u32>, global_scale: u32) -> (r: u32)
        requires
            out_scale_ok(*self, in_scales@, global_scale),
        ensures
            r == spec_out_scale(*self, in_scales@, global_scale),
        decreases *self,
    {
        match self {
            OpKind::Poly(p) => match p {
                PolyOp::Add => in_scales[0],
                PolyOp::Sub => in_scales[0],
                PolyOp::Mult => in_scales[0] + in_scales[1],
                PolyOp::Matmul => in_scales[0] + in_scales[1],
                PolyOp::Pow(n) => *n * in_scales[0],
                PolyOp::Pack(_, _) => in_scales[0],
            },
            OpKind::Rescaled(r) => {
                let n = in_scales.len();
                let mut adjusted: Vec<u32> = Vec::new();
                let mut i: usize = 0;
                while i < n
                    invariant
                        i <= n,
                        n == in_scales@.len(),
                        out_scale_ok(OpKind::Rescaled(*r), in_scales@, global_scale),
                        r.scale@.len() == n,
                        adjusted@ == adjusted_scales(in_scales@, r.scale@).subrange(0, i as int),
                    decreases n - i,
                {
                    let e = crate::scale::mult_to_scale(r.scale[i].1);
                    proof {
                        lemma_log2m_unique(r.scale@[i as int].1, e as nat);
                        assert(adjusted@.push((in_scales@[i as int] + e) as u32) =~= adjusted_scales(
                            in_scales@,
                            r.scale@,
                        ).subrange(0, i + 1));
                    }
                    adjusted.push(in_scales[i] + e);
                    i = i + 1;
                }
                proof {
                    assert(adjusted@ =~= adjusted_scales(in_scales@, r.scale@));
                }
                r.inner.out_scale(&adjusted, global_scale)
            },
            _ => global_scale,
        }
    }

    /// The input indices whose scales must be equalised before the
    /// operator runs.
    pub fn requires_homogenous_input_scales(&self) -> (r: Vec<usize>)
        ensures
            (*self matches OpKind::Poly(p) && (p is Add || p is Sub)) ==> r@ =~= seq![
                0usize,
                1usize,
            ],
            !(*self matches OpKind::Poly(p) && (p is Add || p is Sub)) ==> r@ =~= Seq::<
                usize,
            >::empty(),
    {
        match self {
            OpKind::Poly(p) => match p {
                PolyOp::Add => {
                    let mut v: Vec<usize> = Vec::new();
                    v.push(0);
                    v.push(1);
                    v
                },
                PolyOp::Sub => {
                    let mut v: Vec<usize> = Vec::new();
                    v.push(0);
                    v.push(1);
                    v
                },
                _ => Vec::new(),
            },
            _ => Vec::new(),
        }
    }

    /// The lookup tables the layout will install for this operator.
    pub fn required_lookups(&self) -> (r: Vec<LookupOp>)
        ensures
            r@ == spec_required_lookups(*self),
        decreases *self,
    {
        match self {
            OpKind::Lookup(l) => {
                let v = l.required_lookups();
                proof {
                    assert(v@ =~= spec_required_lookups(*self));
                }
                v
            },
            OpKind::Rescaled(r) => r.inner.required_lookups(),
            _ => {
                proof {
                    assert(Seq::<LookupOp>::empty() =~= spec_required_lookups(*self));
                }
                Vec::new()
            },
        }
    }

    /// A rescaled copy of the operator: lookup operators fold the
    /// scale ratios into their parameters, every other kind passes
    /// through unchanged.
    pub fn rescale(self, inputs_scale: &Vec<u32>, global_scale: u32) -> (r: OpKind)
        requires
            self matches OpKind::Lookup(l) ==> {
                &&& l.wf()
                &&& inputs_scale@.len() >= 1
                &&& l.rescale_ok(inputs_scale@[0] as int, global_scale as int)
            },
        ensures
            match self {
                OpKind::Lookup(l) => r == OpKind::Lookup(
                    l.spec_rescale(inputs_scale@[0] as int, global_scale as int),
                ),
                _ => r == self,
            },
    {
        match self {
            OpKind::Lookup(l) => OpKind::Lookup(l.rescale(inputs_scale, global_scale)),
            other => other,
        }
    }

    /// Whether the operator is a model input.
    pub fn is_input(&self) -> (r: bool)
        ensures
            r == (*self is Input),
    {
        match self {
            OpKind::Input(_) => true,
            _ => false,
        }
    }
}

/// Shape closure: for every operator and all admissible inputs, the
/// forward evaluation produces exactly as many elements as the shape
/// its output-shape derivation predicts.
pub proof fn lemma_shape_closure(op: OpKind, datas: Seq<Seq<i128>>, shapes: Seq<Seq<usize>>)
    requires
        f_ok_d(op, datas, shapes),
        !is_unevaluable(op),
    ensures
        spec_f_data(op, datas, shapes).len() == shape_volume(spec_out_shape(op, shapes)),
    decreases op,
{
    match op {
        OpKind::Input(_) => {},
        OpKind::Const(_) => {},
        OpKind::Poly(p) => {
            match p {
                PolyOp::Add => {
                    crate::tensor::lemma_volume_nonneg(spec_broadcasted_shape(shapes[0], shapes[1]));
                },
                PolyOp::Sub => {
                    crate::tensor::lemma_volume_nonneg(spec_broadcasted_shape(shapes[0], shapes[1]));
                },
                PolyOp::Mult => {
                    crate::tensor::lemma_volume_nonneg(spec_broadcasted_shape(shapes[0], shapes[1]));
                },
                PolyOp::Matmul => {
                    let m = shapes[0][0] as int;
                    let nn = shapes[1][1] as int;
                    let out = seq![shapes[0][0], shapes[1][1]];
                    assert(out.skip(1) =~= seq![shapes[1][1]]);
                    assert(out.skip(1).skip(1) =~= Seq::<usize>::empty());
                    assert(shape_volume(Seq::<usize>::empty()) == 1);
                    assert(shape_volume(out.skip(1)) == nn * shape_volume(out.skip(1).skip(1)));
                    assert(shape_volume(out) == m * shape_volume(out.skip(1)));
                    assert(m * (nn * 1) == m * nn) by (nonlinear_arith);
                    assert(m * nn >= 0) by (nonlinear_arith)
                        requires
                            m >= 0,
                            nn >= 0,
                    ;
                },
                PolyOp::Pow(_) => {},
                PolyOp::Pack(_, _) => {
                    let one = seq![1usize];
                    assert(one.skip(1) =~= Seq::<usize>::empty());
                    assert(shape_volume(Seq::<usize>::empty()) == 1);
                    assert(shape_volume(one) == 1 * shape_volume(one.skip(1)));
                },
            }
        },
        OpKind::Lookup(_) => {},
        OpKind::Hybrid(_) => {},
        OpKind::Rescaled(r) => {
            let sd = scaled_datas(datas, r.scale@);
            assert(forall|i: int|
                0 <= i < sd.len() ==> (#[trigger] sd[i]).len() == datas[i].len());
            lemma_shape_closure(*r.inner, sd, shapes);
        },
        OpKind::Unknown(_) => {},
    }
}

/// Multiplies two rank-two tensors: each output cell is the dot
/// product of a row of the left operand and a column of the right.
fn matmul_tensor(a: &Tensor<i128>, b: &Tensor<i128>) -> (r: Tensor<i128>)
    requires
        a.wf(),
        b.wf(),
        a.shape().len() == 2,
        b.shape().len() == 2,
        a.shape()[1] == b.shape()[0],
        (a.shape()[0] as int) * (b.shape()[1] as int) <= usize::MAX,
        matmul_in_range(a.data(), a.shape(), b.data(), b.shape()),
    ensures
        r.wf(),
        r.shape() == seq![a.shape()[0], b.shape()[1]],
        r.data().len() == (a.shape()[0] as int) * (b.shape()[1] as int),
        forall|p: int|
            0 <= p < r.data().len() ==> r.data()[p] == spec_dot(
                a.data(),
                b.data(),
                a.shape()[1] as int,
                b.shape()[1] as int,
                p / (b.shape()[1] as int),
                p % (b.shape()[1] as int),
                a.shape()[1] as int,
            ),
{
    let ghost ad = a.data();
    let ghost bd = b.data();
    let alen = a.len();
    let blen = b.len();
    let m = a.dim_at(0);
    let kk = a.dim_at(1);
    let nn = b.dim_at(1);
    proof {
        lemma_matmul_dims(a.shape(), ad.len() as int);
        lemma_matmul_dims(b.shape(), bd.len() as int);
    }
    let mut out: Vec<i128> = Vec::new();
    let mut i: usize = 0;
    while i < m
        invariant
            i <= m,
            a.wf(),
            b.wf(),
            ad == a.data(),
            bd == b.data(),
            a.shape().len() == 2,
            b.shape().len() == 2,
            m == a.shape()[0],
            kk == a.shape()[1],
            nn == b.shape()[1],
            kk == b.shape()[0],
            ad.len() == m * kk,
            bd.len() == kk * nn,
            alen == ad.len(),
            blen == bd.len(),
            (m as int) * (nn as int) <= usize::MAX,
            matmul_in_range(ad, a.shape(), bd, b.shape()),
            out@.len() == i * nn,
            forall|p: int|
                0 <= p < out@.len() ==> out@[p] == spec_dot(
                    ad,
                    bd,
                    kk as int,
                    nn as int,
                    p / (nn as int),
                    p % (nn as int),
                    kk as int,
                ),
        decreases m - i,
    {
        let mut j: usize = 0;
        proof {
            assert((i as int) * (nn as int) + nn <= (m as int) * (nn as int)) by (nonlinear_arith)
                requires
                    i < m,
                    nn >= 0,
            ;
        }
        while j < nn
            invariant
                j <= nn,
                i < m,
                a.wf(),
                b.wf(),
                ad == a.data(),
                bd == b.data(),
                a.shape().len() == 2,
                b.shape().len() == 2,
                m == a.shape()[0],
                kk == a.shape()[1],
                nn == b.shape()[1],
                kk == b.shape()[0],
                ad.len() == m * kk,
                bd.len() == kk * nn,
                alen == ad.len(),
                blen == bd.len(),
                (m as int) * (nn as int) <= usize::MAX,
                (i as int) * (nn as int) + nn <= (m as int) * (nn as int),
                matmul_in_range(ad, a.shape(), bd, b.shape()),
                out@.len() == i * nn + j,
                forall|p: int|
                    0 <= p < out@.len() ==> out@[p] == spec_dot(
                        ad,
                        bd,
                        kk as int,
                        nn as int,
                        p / (nn as int),
                        p % (nn as int),
                        kk as int,
                    ),
            decreases nn - j,
        {
            let mut acc: i128 = 0;
            let mut t: usize = 0;
            while t < kk
                invariant
                    t <= kk,
                    i < m,
                    j < nn,
                    a.wf(),
                    b.wf(),
                    ad == a.data(),
                    bd == b.data(),
                    a.shape().len() == 2,
                    b.shape().len() == 2,
                    m == a.shape()[0],
                    kk == a.shape()[1],
                    nn == b.shape()[1],
                    kk == b.shape()[0],
                    ad.len() == m * kk,
                    bd.len() == kk * nn,
                    alen == ad.len(),
                    blen == bd.len(),
                    matmul_in_range(ad, a.shape(), bd, b.shape()),
                    acc == spec_dot(ad, bd, kk as int, nn as int, i as int, j as int, t as int),
                decreases kk - t,
            {
                proof {
                    assert((i as int) * (kk as int) + t < (m as int) * (kk as int))
                        by (nonlinear_arith)
                        requires
                            i < m,
                            t < kk,
                    ;
                    assert((i as int) * (kk as int) + t >= 0) by (nonlinear_arith)
                        requires
                            i >= 0,
                            kk >= 0,
                            t >= 0,
                    ;
                    assert((t as int) * (nn as int) + j < (kk as int) * (nn as int))
                        by (nonlinear_arith)
                        requires
                            t < kk,
                            j < nn,
                    ;
                    assert((t as int) * (nn as int) + j >= 0) by (nonlinear_arith)
                        requires
                            t >= 0,
                            nn >= 0,
                            j >= 0,
                    ;
                }
                let av = a.get_flat(i * kk + t);
                let bv = b.get_flat(t * nn + j);
                proof {
                    assert(i128::MIN <= ad[(i as int) * (kk as int) + t] * bd[(t as int) * (
                    nn as int) + j] <= i128::MAX);
                    assert(av * bv == ad[(i as int) * (kk as int) + t] * bd[(t as int) * (
                    nn as int) + j]) by (nonlinear_arith)
                        requires
                            av == ad[(i as int) * (kk as int) + t],
                            bv == bd[(t as int) * (nn as int) + j],
                    ;
                    assert(i128::MIN <= spec_dot(
                        ad,
                        bd,
                        kk as int,
                        nn as int,
                        i as int,
                        j as int,
                        t + 1,
                    ) <= i128::MAX);
                }
                acc = acc + av * bv;
                t = t + 1;
            }
            proof {
                let p = (i as int) * (nn as int) + j;
                vstd::arithmetic::div_mod::lemma_fundamental_div_mod_converse(
                    p,
                    nn as int,
                    i as int,
                    j as int,
                );
            }
            out.push(acc);
            j = j + 1;
        }
        i = i + 1;
        proof {
            assert((i as int) * (nn as int) == (i - 1) * (nn as int) + nn) by (nonlinear_arith);
        }
    }
    let mut d: Vec<usize> = Vec::new();
    d.push(m);
    d.push(nn);
    proof {
        assert(d@ =~= seq![m, nn]);
        assert(d@.skip(1) =~= seq![nn]);
        assert(d@.skip(1).skip(1) =~= Seq::<usize>::empty());
        assert(shape_volume(Seq::<usize>::empty()) == 1);
        assert(shape_volume(d@.skip(1)) == nn * shape_volume(d@.skip(1).skip(1)));
        assert(shape_volume(d@) == m * shape_volume(d@.skip(1)));
        assert((m as int) * ((nn as int) * 1) == (m as int) * (nn as int)) by (nonlinear_arith);
    }
    Tensor::new_from_parts(out, d)
}

/// A rank-two tensor's buffer length is the product of its two axes.
proof fn lemma_matmul_dims(sh: Seq<usize>, len: int)
    requires
        sh.len() == 2,
        len == shape_volume(sh),
    ensures
        len == (sh[0] as int) * (sh[1] as int),
{
    assert(sh.skip(1) =~= seq![sh[1]]);
    assert(sh.skip(1).skip(1) =~= Seq::<usize>::empty());
    assert(shape_volume(Seq::<usize>::empty()) == 1);
    assert(shape_volume(sh.skip(1)) == sh[1] * shape_volume(sh.skip(1).skip(1)));
    assert(shape_volume(sh) == sh[0] * shape_volume(sh.skip(1)));
    assert((sh[0] as int) * ((sh[1] as int) * 1) == (sh[0] as int) * (sh[1] as int))
        by (nonlinear_arith);
}

/// Packs a flat tensor into a single base-ary value.
fn pack_tensor(t: &Tensor<i128>, base: u32) -> (r: Tensor<i128>)
    requires
        t.wf(),
        pack_in_range(t.data(), base as int),
    ensures
        r.wf(),
        r.shape() == seq![1usize],
        r.data().len() == 1,
        r.data()[0] == spec_pack_prefix(t.data(), base as int, t.data().len() as int),
{
    let ghost data = t.data();
    let ghost gb = base as int;
    let len = t.len();
    let b = base as i128;
    let mut acc: i128 = 0;
    let mut p: i128 = 1;
    let mut i: usize = 0;
    proof {
        vstd::arithmetic::power::lemma_pow0(gb);
    }
    while i < len
        invariant
            i <= len,
            len == data.len(),
            t.wf(),
            t.data() == data,
            b == base as int,
            gb == base as int,
            pack_in_range(data, base as int),
            acc == spec_pack_prefix(data, base as int, i as int),
            i < len ==> p == pow(gb, i as nat),
        decreases len - i,
    {
        let x = t.get_flat(i);
        proof {
            let ghost ii = i as int;
            assert(i128::MIN <= data[ii] * pow(base as int, ii as nat) <= i128::MAX);
            assert(i128::MIN <= spec_pack_prefix(data, base as int, i + 1) <= i128::MAX);
            assert(x * p == data[i as int] * pow(gb, i as nat)) by (nonlinear_arith)
                requires
                    x == data[i as int],
                    p == pow(gb, i as nat),
                    pow(gb, i as nat) == pow(gb, ii as nat),
            ;
        }
        acc = acc + x * p;
        i = i + 1;
        if i < len {
            proof {
                let ghost ii = i as int;
                assert(i128::MIN <= pow(base as int, ii as nat) <= i128::MAX);
                assert(pow(base as int, i as nat) == pow(base as int, ii as nat));
                assert(pow(gb, i as nat) == gb * pow(gb, (i - 1) as nat)) by {
                    reveal(pow);
                }
                assert(p * b == gb * pow(gb, (i - 1) as nat)) by (nonlinear_arith)
                    requires
                        p == pow(gb, (i - 1) as nat),
                        b == gb,
                ;
            }
            p = p * b;
        }
    }
    let mut out: Vec<i128> = Vec::new();
    out.push(acc);
    let mut d: Vec<usize> = Vec::new();
    d.push(1);
    proof {
        assert(d@ =~= seq![1usize]);
        assert(d@.skip(1) =~= Seq::<usize>::empty());
        assert(shape_volume(Seq::<usize>::empty()) == 1);
        assert(shape_volume(d@) == 1 * shape_volume(d@.skip(1)));
        assert(out@ =~= seq![acc]);
    }
    let r = Tensor::new_from_parts(out, d);
    r
}

} // verus!
