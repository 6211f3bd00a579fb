use ezkl_lib::tensor::Tensor;

#[test]
fn test_tensor() {
    let data: Vec<f32> = vec![-1.0f32, 0.0, 1.0, 2.5];
    let tensor = Tensor::<f32>::new(Some(&data), &[2, 2]).unwrap();
    assert_eq!(tensor.as_slice(), &data[..]);
}

#[test]
fn tensor_clone() {
    let x = Tensor::<i32>::new(Some(&[1, 2, 3]), &[3]).unwrap();
    assert_eq!(x, x.clone());
}

#[test]
fn tensor_eq() {
    let a = Tensor::<i32>::new(Some(&[1, 2, 3]), &[3]).unwrap();
    let mut b = Tensor::<i32>::new(Some(&[1, 2, 3]), &[3, 1]).unwrap();
    b.reshape(&[3]);
    let c = Tensor::<i32>::new(Some(&[1, 2, 4]), &[3]).unwrap();
    let d = Tensor::<i32>::new(Some(&[1, 2, 4]), &[3, 1]).unwrap();
    assert_eq!(a, b);
    assert_ne!(a, c);
    assert_ne!(a, d);
}

#[test]
fn tensor_slice() {
    let a = Tensor::<i32>::new(Some(&[1, 2, 3, 4, 5, 6]), &[2, 3]).unwrap();
    let b = Tensor::<i32>::new(Some(&[1, 4]), &[2, 1]).unwrap();
    assert_eq!(a.get_slice(&[0..2, 0..1]).unwrap(), b);
}

#[test]
fn tensor_zero_fill() {
    let a = Tensor::<i32>::new(None, &[3, 3, 3]).unwrap();
    assert_eq!(a.as_slice(), &[0i32; 27][..]);
    assert_eq!(a.dims(), &[3, 3, 3]);
}

#[test]
fn tensor_new_len_mismatch() {
    let r = Tensor::<i32>::new(Some(&[1, 2, 3]), &[2, 2]);
    assert_eq!(r.unwrap_err(), ezkl_lib::tensor::TensorError::DimError);
}

#[test]
fn tensor_get_set_index() {
    let mut a = Tensor::<i32>::new(None, &[2, 3, 5]).unwrap();
    a.set(&[1, 1, 1], 5);
    assert_eq!(a.get(&[1, 1, 1]), 5);
    assert_eq!(a.get_index(&[1, 1, 1]), 21);
    let b = Tensor::<f32>::new(None, &[3, 3, 3]).unwrap();
    assert_eq!(b.get_index(&[2, 2, 2]), 26);
    assert_eq!(b.get_index(&[1, 2, 0]), 15);
}

#[test]
fn tensor_reshape_flatten() {
    let mut a = Tensor::<f32>::new(None, &[3, 3, 3]).unwrap();
    a.reshape(&[9, 3]);
    assert_eq!(a.dims(), &[9, 3]);
    a.flatten();
    assert_eq!(a.dims(), &[27]);
}

#[test]
fn tensor_expand() {
    let a = Tensor::<i32>::new(Some(&[1, 2, 3]), &[3, 1]).unwrap();
    let expected = Tensor::<i32>::new(Some(&[1, 1, 1, 2, 2, 2, 3, 3, 3]), &[3, 3]).unwrap();
    assert_eq!(a.expand(&[3, 3]).unwrap(), expected);
}

#[test]
fn tensor_duplicate_every_n() {
    let a = Tensor::<i32>::new(Some(&[1, 2, 3, 4, 5, 6]), &[6]).unwrap();
    let expected = Tensor::<i32>::new(Some(&[1, 2, 3, 3, 4, 5, 5, 6]), &[8]).unwrap();
    assert_eq!(a.duplicate_every_n(3, 0).unwrap(), expected);
    assert_eq!(a.duplicate_every_n(7, 0).unwrap(), a);
    let expected = Tensor::<i32>::new(Some(&[1, 1, 2, 3, 3, 4, 5, 5, 6]), &[9]).unwrap();
    assert_eq!(a.duplicate_every_n(3, 2).unwrap(), expected);
}

#[test]
fn tensor_remove_every_n() {
    let a = Tensor::<i32>::new(Some(&[1, 2, 3, 3, 4, 5, 6, 6]), &[8]).unwrap();
    let expected = Tensor::<i32>::new(Some(&[1, 2, 3, 4, 5, 6]), &[6]).unwrap();
    assert_eq!(a.remove_every_n(4, 0).unwrap(), expected);
    let a = Tensor::<i32>::new(Some(&[1, 1, 2, 3, 3, 4, 5, 5, 6]), &[9]).unwrap();
    assert_eq!(a.remove_every_n(3, 2).unwrap(), expected);
}

#[test]
fn tensor_map_enum_map() {
    let a = Tensor::<i32>::new(Some(&[1, 4]), &[2]).unwrap();
    let c = a.map(|x| x * x);
    assert_eq!(c, Tensor::<i32>::new(Some(&[1, 16]), &[2]).unwrap());
    let e = a
        .enum_map::<i32, ezkl_lib::tensor::TensorError, _>(|i, x| Ok((x + i as i32) * (x + i as i32)))
        .unwrap();
    assert_eq!(e, Tensor::<i32>::new(Some(&[1, 25]), &[2]).unwrap());
}

#[test]
fn tensor_combine() {
    let a = Tensor::<i32>::new(Some(&[1, 2, 3, 4, 5, 6]), &[2, 3]).unwrap();
    let b = Tensor::<i32>::new(Some(&[1, 4]), &[2, 1]).unwrap();
    let c = Tensor::new_from_parts(vec![a, b], vec![2]);
    let d = c.combine().unwrap();
    assert_eq!(d.dims(), &[8]);
    assert_eq!(d.as_slice(), &[1, 2, 3, 4, 5, 6, 1, 4][..]);
}

#[test]
fn tensor_add_broadcast() {
    let x = Tensor::<i128>::new(Some(&[2, 1, 2, 1, 1, 1]), &[2, 3]).unwrap();
    let k = Tensor::<i128>::new(Some(&[2, 3, 2, 1, 1, 1]), &[2, 3]).unwrap();
    let expected = Tensor::<i128>::new(Some(&[4, 4, 4, 2, 2, 2]), &[2, 3]).unwrap();
    assert_eq!(x.add(&k).unwrap(), expected);
    let k = Tensor::<i128>::new(Some(&[2]), &[1]).unwrap();
    let expected = Tensor::<i128>::new(Some(&[4, 3, 4, 3, 3, 3]), &[2, 3]).unwrap();
    assert_eq!(x.add(&k).unwrap(), expected);
    let k = Tensor::<i128>::new(Some(&[2, 3]), &[2]).unwrap();
    let expected = Tensor::<i128>::new(Some(&[4, 3, 4, 4, 4, 4]), &[2, 3]).unwrap();
    assert_eq!(x.add(&k).unwrap(), expected);
}

#[test]
fn tensor_add_commutes() {
    let a = Tensor::<i128>::new(Some(&[5, 1]), &[2, 1]).unwrap();
    let b = Tensor::<i128>::new(Some(&[7, 2, 9]), &[1, 3]).unwrap();
    assert_eq!(a.add(&b).unwrap(), b.add(&a).unwrap());
}

#[test]
fn tensor_sub_mul_div() {
    let x = Tensor::<i128>::new(Some(&[2, 1, 2, 1, 1, 1]), &[2, 3]).unwrap();
    let k = Tensor::<i128>::new(Some(&[2, 3, 2, 1, 1, 1]), &[2, 3]).unwrap();
    let expected = Tensor::<i128>::new(Some(&[0, -2, 0, 0, 0, 0]), &[2, 3]).unwrap();
    assert_eq!(x.sub(&k).unwrap(), expected);
    let expected = Tensor::<i128>::new(Some(&[4, 3, 4, 1, 1, 1]), &[2, 3]).unwrap();
    assert_eq!(x.mul(&k).unwrap(), expected);
    let x = Tensor::<i128>::new(Some(&[4, 1, 4, 1, 1, 4]), &[2, 3]).unwrap();
    let y = Tensor::<i128>::new(Some(&[2]), &[1]).unwrap();
    let expected = Tensor::<i128>::new(Some(&[2, 0, 2, 0, 0, 2]), &[2, 3]).unwrap();
    assert_eq!(x.div(&y).unwrap(), expected);
}

#[test]
fn tensor_pow() {
    let x = Tensor::<i128>::new(Some(&[2, 15, 2, 1, 1, 0]), &[2, 3]).unwrap();
    let expected = Tensor::<i128>::new(Some(&[8, 3375, 8, 1, 1, 0]), &[2, 3]).unwrap();
    assert_eq!(x.pow(3).unwrap(), expected);
}

#[test]
fn tensor_broadcasted_shape() {
    assert_eq!(
        ezkl_lib::tensor::get_broadcasted_shape(&[2, 3], &[2, 3]).unwrap(),
        vec![2, 3]
    );
    assert_eq!(
        ezkl_lib::tensor::get_broadcasted_shape(&[2, 3], &[3]).unwrap(),
        vec![2, 3]
    );
    assert_eq!(
        ezkl_lib::tensor::get_broadcasted_shape(&[2, 1], &[2, 3]).unwrap(),
        vec![2, 3]
    );
}

#[test]
fn tensor_resize() {
    let a = Tensor::<i32>::new(Some(&[1, 2, 3, 4]), &[2, 2]).unwrap();
    let out = ezkl_lib::tensor::resize(&a, &[2, 2]).unwrap();
    let expected = Tensor::<i32>::new(
        Some(&[1, 1, 2, 2, 1, 1, 2, 2, 3, 3, 4, 4, 3, 3, 4, 4]),
        &[4, 4],
    )
    .unwrap();
    assert_eq!(out, expected);
}

#[test]
fn tensor_intercalate_values() {
    let a = Tensor::<i32>::new(Some(&[1, 2, 3, 4]), &[2, 2]).unwrap();
    let out = ezkl_lib::tensor::intercalate_values(&a, 0, 2, 1).unwrap();
    let expected = Tensor::<i32>::new(Some(&[1, 0, 2, 3, 0, 4]), &[2, 3]).unwrap();
    assert_eq!(out, expected);
    let out = ezkl_lib::tensor::intercalate_values(&out, 0, 2, 0).unwrap();
    let expected = Tensor::<i32>::new(Some(&[1, 0, 2, 0, 0, 0, 3, 0, 4]), &[3, 3]).unwrap();
    assert_eq!(out, expected);
}

#[test]
fn tensor_pad() {
    let a = Tensor::<i32>::new(Some(&[1, 2, 3, 4]), &[1, 2, 2]).unwrap();
    let out = ezkl_lib::tensor::pad(&a, (1, 1), 0).unwrap();
    let expected = Tensor::<i32>::new(
        Some(&[0, 0, 0, 0, 0, 1, 2, 0, 0, 3, 4, 0, 0, 0, 0, 0]),
        &[1, 4, 4],
    )
    .unwrap();
    assert_eq!(out, expected);
}
