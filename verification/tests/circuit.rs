use ezkl_lib::graph::{lookup_budget_check, homogenize_input_scales, Node};
use ezkl_lib::lookup::{LookupOp, ScalePair};
use ezkl_lib::nonlin::Frac;
use ezkl_lib::ops::{OpKind, PolyOp};
use ezkl_lib::table::{CircuitError, Table};
use ezkl_lib::tensor::Tensor;

fn i128_tensor(vals: &[i128], dims: &[usize]) -> Tensor<i128> {
    Tensor::new(Some(vals), dims).unwrap()
}

#[test]
fn relu_on_2x3_tensor() {
    // Quantised input at global scale 7, rectified over divisor 128.
    let input = i128_tensor(&[-256, 0, 192, 13, 0, 384], &[2, 3]);
    let op = LookupOp::ReLU { scale: 128 };
    let out = op.f(&vec![input]).unwrap();
    let expected = i128_tensor(&[0, 0, 2, 0, 0, 3], &[2, 3]);
    assert_eq!(out, expected);
}

#[test]
fn quantised_input_values() {
    // Quantising the raw rationals at scale 7 gives the integers the
    // rectifier consumes; 1.5 = 3/2 and 0.1 = 1/10 are exact.
    assert_eq!(ezkl_lib::scale::quantize_rational(-2, 1, 7), -256);
    assert_eq!(ezkl_lib::scale::quantize_rational(0, 1, 7), 0);
    assert_eq!(ezkl_lib::scale::quantize_rational(3, 2, 7), 192);
    assert_eq!(ezkl_lib::scale::quantize_rational(1, 10, 7), 13);
    assert_eq!(ezkl_lib::scale::quantize_rational(-1, 10000, 7), 0);
    assert_eq!(ezkl_lib::scale::quantize_rational(3, 1, 7), 384);
}

#[test]
fn sigmoid_of_zero() {
    let op = LookupOp::Sigmoid { scales: ScalePair { input: 128, output: 128 } };
    let input = i128_tensor(&[0], &[1]);
    let out = op.f(&vec![input]).unwrap();
    assert_eq!(out.as_slice(), &[64][..]);
}

#[test]
fn sigmoid_zero_row_in_table() {
    let op = LookupOp::Sigmoid { scales: ScalePair { input: 128, output: 128 } };
    let mut table = Table::configure(16, &op);
    let rows = table.layout().unwrap();
    assert_eq!(rows.len(), 1 << 16);
    let zero_row = rows[1 << 15];
    assert_eq!(zero_row, (0, 64));
}

#[test]
fn greater_than_threshold() {
    // Threshold 0.5 folded with the input-scale multiplier 128.
    let raw = LookupOp::GreaterThan { a: Frac::new(1, 2) };
    let folded = raw.rescale(&vec![7u32], 0);
    assert_eq!(folded, LookupOp::GreaterThan { a: Frac::new(128, 2) });
    let input = i128_tensor(&[0, 63, 64, 65, 200], &[5]);
    let out = folded.f(&vec![input]).unwrap();
    assert_eq!(out.as_slice(), &[0, 0, 0, 1, 1][..]);
}

#[test]
fn rescaled_add() {
    // Input scales (7, 5): the loader lifts both to 7 with
    // multipliers 1 and 4.
    let wrapped = homogenize_input_scales(OpKind::Poly(PolyOp::Add), &vec![7u32, 5u32]);
    match &wrapped {
        OpKind::Rescaled(r) => {
            assert_eq!(r.scale, vec![(0usize, 1u128), (1usize, 4u128)]);
        }
        _ => panic!("expected a rescaling wrapper"),
    }
    let a = i128_tensor(&[10, -3], &[2]);
    let b = i128_tensor(&[5, 2], &[2]);
    let out = wrapped.f(&vec![a, b]).unwrap();
    assert_eq!(out.as_slice(), &[30, 5][..]);
    let out_scale = wrapped.out_scale(&vec![7u32, 5u32], 7);
    assert_eq!(out_scale, 7);
}

#[test]
fn broadcast_multiply() {
    let a = i128_tensor(&[2, 1, 2, 1, 1, 1], &[2, 3]);
    let b = i128_tensor(&[2, 2, 2], &[3]);
    let out = OpKind::Poly(PolyOp::Mult).f(&vec![a, b]).unwrap();
    let expected = i128_tensor(&[4, 2, 4, 2, 2, 2], &[2, 3]);
    assert_eq!(out, expected);
}

#[test]
fn budget_warning() {
    // Bits 8 and scale 7: the largest observed lookup input 500 does
    // not fit the window of 128, and a larger bit width or a smaller
    // scale is recommended.
    let rec = lookup_budget_check(500, 8, 7).unwrap();
    assert_eq!(rec.recommended_bits, 10);
    assert_eq!(rec.recommended_scale, 5);
    assert!(lookup_budget_check(127, 8, 7).is_none());
}

#[test]
fn table_rows_enumerate_window() {
    let op = LookupOp::ReLU { scale: 1 };
    let mut table = Table::configure(4, &op);
    let rows = table.layout().unwrap();
    assert_eq!(rows.len(), 16);
    for (i, row) in rows.iter().enumerate() {
        assert_eq!(row.0, i as i128 - 8);
        assert_eq!(row.1, if row.0 < 0 { 0 } else { row.0 });
    }
}

#[test]
fn table_assign_twice_fails() {
    let op = LookupOp::ReLU { scale: 2 };
    let mut table = Table::configure(4, &op);
    assert!(table.layout().is_ok());
    assert_eq!(table.layout().unwrap_err(), CircuitError::TableAlreadyAssigned);
}

#[test]
fn lookup_rescale_folds_parameters() {
    let relu = LookupOp::ReLU { scale: 1 };
    assert_eq!(relu.rescale(&vec![9u32], 7), LookupOp::ReLU { scale: 4 });
    let div = LookupOp::Div { denom: Frac::new(3, 1) };
    assert_eq!(
        div.rescale(&vec![8u32, 3u32], 7),
        LookupOp::Div { denom: Frac::new(6, 1) }
    );
    let sig = LookupOp::Sigmoid { scales: ScalePair { input: 1, output: 1 } };
    assert_eq!(
        sig.rescale(&vec![7u32], 7),
        LookupOp::Sigmoid { scales: ScalePair { input: 128, output: 128 } }
    );
}

#[test]
fn default_pair_is_zero_image() {
    let op = LookupOp::Sigmoid { scales: ScalePair { input: 128, output: 128 } };
    assert_eq!(op.default_pair(), (0, 64));
    let relu = LookupOp::ReLU { scale: 128 };
    assert_eq!(relu.default_pair(), (0, 0));
}

#[test]
fn node_new_trims_batch_axis() {
    let node = Node::new(
        OpKind::Poly(PolyOp::Mult),
        vec![0, 1],
        &vec![7u32, 7u32],
        7,
        &vec![1usize, 3, 32, 32],
        2,
    );
    assert_eq!(node.out_dims, vec![3, 32, 32]);
    assert_eq!(node.out_scale, 14);
    let node = Node::new(
        OpKind::Poly(PolyOp::Add),
        vec![0, 1],
        &vec![7u32, 7u32],
        7,
        &vec![1usize, 1, 1],
        2,
    );
    assert_eq!(node.out_dims, vec![1]);
    assert_eq!(node.out_scale, 7);
}

#[test]
fn nonlinearity_values() {
    // Leak slope 1/10 over divisor 1: -20 maps to -2.
    let t = i128_tensor(&[-20, 20], &[2]);
    let out = ezkl_lib::nonlin::leakyrelu(&t, 1, Frac::new(1, 10));
    assert_eq!(out.as_slice(), &[-2, 20][..]);
    // round(128 / x) with the zero sentinel.
    let t = i128_tensor(&[0, 3, -3], &[3]);
    let out = ezkl_lib::nonlin::recip(&t, 128);
    assert_eq!(out.as_slice(), &[0, 43, -43][..]);
    // Division by 2.5 rounds half away from zero.
    let t = i128_tensor(&[5, -5, 4], &[3]);
    let out = ezkl_lib::nonlin::const_div(&t, Frac::new(5, 2));
    assert_eq!(out.as_slice(), &[2, -2, 2][..]);
    // Integer square roots: round(8 * sqrt(x / 4)).
    let t = i128_tensor(&[4, 16, 0], &[3]);
    let out = ezkl_lib::nonlin::sqrt(&t, 4, 8);
    assert_eq!(out.as_slice(), &[8, 16, 0][..]);
    // tanh and erf vanish at zero; exp of zero is the output scale.
    let t = i128_tensor(&[0], &[1]);
    assert_eq!(ezkl_lib::nonlin::tanh(&t, 128, 128).as_slice(), &[0][..]);
    assert_eq!(ezkl_lib::nonlin::erffunc(&t, 128, 128).as_slice(), &[0][..]);
    assert_eq!(ezkl_lib::nonlin::exp(&t, 128, 128).as_slice(), &[128][..]);
}

#[test]
fn round_trip_quantisation_error() {
    // Quantising x = num/den at scale s lands within 2^-s of x:
    // |q * den - num * 2^s| * 2 <= den, checked multiplied out.
    for &(num, den) in &[(1i128, 3i128), (-7, 9), (22, 7), (-1, 10000), (5, 1)] {
        for s in [0u32, 1, 4, 7] {
            let q = ezkl_lib::scale::quantize_rational(num, den, s);
            let err = (q * den - (num << s)).abs();
            assert!(2 * err <= den);
        }
    }
}

#[test]
fn scale_multiplier_round_trip() {
    for s in [0u32, 1, 7, 16, 63] {
        let m = ezkl_lib::scale::scale_to_multiplier(s);
        assert_eq!(m, 1u128 << s);
        assert_eq!(ezkl_lib::scale::mult_to_scale(m), s);
    }
}

#[test]
fn matmul_2x3_by_3x2() {
    let a = i128_tensor(&[1, 2, 3, 4, 5, 6], &[2, 3]);
    let b = i128_tensor(&[7, 8, 9, 10, 11, 12], &[3, 2]);
    let out = OpKind::Poly(PolyOp::Matmul).f(&vec![a, b]).unwrap();
    assert_eq!(out.as_slice(), &[58, 64, 139, 154][..]);
    assert_eq!(out.dims(), &[2, 2]);
    let os = OpKind::Poly(PolyOp::Matmul).out_scale(&vec![7u32, 7u32], 7);
    assert_eq!(os, 14);
}

#[test]
fn pack_base_expansion() {
    let t = i128_tensor(&[3, 1, 4], &[3]);
    let out = OpKind::Poly(PolyOp::Pack(10, 7)).f(&vec![t]).unwrap();
    assert_eq!(out.as_slice(), &[413][..]);
    assert_eq!(out.dims(), &[1]);
}

#[test]
fn pow_via_op() {
    let t = i128_tensor(&[2, -3], &[2]);
    let out = OpKind::Poly(PolyOp::Pow(2)).f(&vec![t]).unwrap();
    assert_eq!(out.as_slice(), &[4, 9][..]);
}
