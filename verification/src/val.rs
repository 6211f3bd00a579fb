//! The value containers threaded through a circuit layout: tensors
//! whose elements are witness values in one of their lifecycle stages,
//! or references to a public instance column.  The backend's field
//! elements are modelled by their signed integer embedding.

use core::ops::Range;
use vstd::prelude::*;

use crate::tensor::{ranges_in_bounds, shape_volume, slice_shape, Tensor, TensorError};

verus! {

/// One witness value at a stage of its lifecycle.
#[derive(Clone, Copy, Debug, PartialEq, Eq, Structural)]
pub enum ValType {
    /// A known value not yet assigned to a cell.
    Value(i128),
    /// A value assigned to a constraint cell.
    AssignedValue(i128),
    /// A previously assigned cell, reused.
    PrevAssigned(i128),
    /// A fixed constant.
    Constant(i128),
}

impl Default for ValType {
    /// The default value: a known zero.
    fn default() -> (r: ValType)
        ensures
            r == ValType::Value(0),
    {
        ValType::Value(0)
    }
}

impl ValType {
    /// The integer the value embeds, whatever its stage.
    pub open spec fn spec_int(&self) -> i128 {
        match *self {
            ValType::Value(v) => v,
            ValType::AssignedValue(v) => v,
            ValType::PrevAssigned(v) => v,
            ValType::Constant(v) => v,
        }
    }

    /// Reads the integer the value embeds.
    pub fn int_value(&self) -> (r: i128)
        ensures
            r == self.spec_int(),
    {
        match *self {
            ValType::Value(v) => v,
            ValType::AssignedValue(v) => v,
            ValType::PrevAssigned(v) => v,
            ValType::Constant(v) => v,
        }
    }
}

/// A tensor of witness values, or a reference to a public instance
/// column with a declared shape; either carries its own fixed-point
/// scale.
#[derive(Debug)]
pub enum ValTensor {
    /// A tensor of values.
    Value {
        /// The underlying tensor.
        inner: Tensor<ValType>,
        /// Dimensions of the tensor.
        dims: Vec<usize>,
        /// The fixed-point scale of the values.
        scale: u32,
    },
    /// A tensor backed by an instance column.
    Instance {
        /// The index of the instance column.
        inner: usize,
        /// Dimensions of the tensor.
        dims: Vec<usize>,
        /// The fixed-point scale of the values.
        scale: u32,
    },
}

/// The recorded dimensions of a value container.
pub open spec fn vt_dims(v: ValTensor) -> Seq<usize> {
    match v {
        ValTensor::Value { dims, .. } => dims@,
        ValTensor::Instance { dims, .. } => dims@,
    }
}

/// The recorded scale of a value container.
pub open spec fn vt_scale(v: ValTensor) -> u32 {
    match v {
        ValTensor::Value { scale, .. } => scale,
        ValTensor::Instance { scale, .. } => scale,
    }
}

/// Well-formedness: a value variant's recorded dimensions match its
/// tensor.
pub open spec fn vt_wf(v: ValTensor) -> bool {
    match v {
        ValTensor::Value { inner, dims, .. } => inner.wf() && inner.shape() == dims@,
        ValTensor::Instance { .. } => true,
    }
}

impl ValTensor {
    /// A tensor of values at scale one.
    pub fn from_tensor(t: Tensor<ValType>) -> (r: ValTensor)
        requires
            t.wf(),
        ensures
            vt_wf(r),
            r matches ValTensor::Value { inner, .. } && inner == t,
            vt_scale(r) == 1u32,
            vt_dims(r) == t.shape(),
    {
        let dims = t.dims_vec();
        ValTensor::Value { inner: t, dims, scale: 1 }
    }

    /// A reference to the instance column of the given index, with a
    /// declared shape.
    pub fn new_instance(col: usize, dims: Vec<usize>, scale: u32) -> (r: ValTensor)
        ensures
            r == (ValTensor::Instance { inner: col, dims, scale }),
    {
        ValTensor::Instance { inner: col, dims, scale }
    }

    /// Sets the container's scale.
    pub fn set_scale(&mut self, scale: u32)
        ensures
            vt_scale(*final(self)) == scale,
            vt_dims(*final(self)) == vt_dims(*old(self)),
            vt_wf(*old(self)) ==> vt_wf(*final(self)),
            (*old(self) is Value) == (*final(self) is Value),
            *old(self) matches ValTensor::Value { inner, .. } ==> (*final(self)
                matches ValTensor::Value { inner: i2, .. } && i2 == inner),
    {
        match self {
            ValTensor::Value { scale: s, .. } => {
                *s = scale;
            },
            ValTensor::Instance { scale: s, .. } => {
                *s = scale;
            },
        }
    }

    /// Returns the container's scale.
    pub fn scale(&self) -> (r: u32)
        ensures
            r == vt_scale(*self),
    {
        match self {
            ValTensor::Value { scale, .. } => *scale,
            ValTensor::Instance { scale, .. } => *scale,
        }
    }

    /// Returns the container's dimensions.
    pub fn dims(&self) -> (r: &Vec<usize>)
        ensures
            r@ == vt_dims(*self),
    {
        match self {
            ValTensor::Value { dims, .. } => dims,
            ValTensor::Instance { dims, .. } => dims,
        }
    }

    /// The number of elements the container describes.
    pub fn len(&self) -> (r: usize)
        requires
            vt_wf(*self),
            shape_volume(vt_dims(*self)) <= usize::MAX,
        ensures
            r == shape_volume(vt_dims(*self)),
    {
        match self {
            ValTensor::Value { inner, .. } => inner.len(),
            ValTensor::Instance { dims, .. } => {
                match crate::tensor::checked_volume(dims.as_slice()) {
                    Some(v) => v,
                    None => {
                        proof {
                            assert(false);
                        }
                        0
                    },
                }
            },
        }
    }

    /// Whether the container describes no elements.
    pub fn is_empty(&self) -> (r: bool)
        requires
            vt_wf(*self),
            shape_volume(vt_dims(*self)) <= usize::MAX,
        ensures
            r == (shape_volume(vt_dims(*self)) == 0),
    {
        self.len() == 0
    }

    /// The integer evaluations of the inner values; refused on an
    /// instance reference.
    pub fn get_int_evals(&self) -> (r: Result<Vec<i128>, TensorError>)
        requires
            vt_wf(*self),
        ensures
            match r {
                Ok(v) => {
                    &&& *self is Value
                    &&& (*self matches ValTensor::Value { inner, .. } ==> v@.len()
                        == inner.data().len() && forall|i: int|
                        0 <= i < v@.len() ==> v@[i] == inner.data()[i].spec_int())
                },
                Err(e) => e == TensorError::WrongMethod && *self is Instance,
            },
    {
        match self {
            ValTensor::Value { inner, .. } => {
                let len = inner.len();
                let mut out: Vec<i128> = Vec::new();
                let mut i: usize = 0;
                while i < len
                    invariant
                        i <= len,
                        inner.wf(),
                        len == inner.data().len(),
                        out@.len() == i,
                        forall|j: int|
                            0 <= j < i ==> out@[j] == inner.data()[j].spec_int(),
                    decreases len - i,
                {
                    let v = inner.get_flat(i);
                    out.push(v.int_value());
                    i = i + 1;
                }
                Ok(out)
            },
            ValTensor::Instance { .. } => Err(TensorError::WrongMethod),
        }
    }

    /// The inner tensor of values; refused on an instance reference.
    pub fn get_inner_tensor(&self) -> (r: Result<&Tensor<ValType>, TensorError>)
        ensures
            match r {
                Ok(t) => *self matches ValTensor::Value { inner, .. } && *t == inner,
                Err(e) => e == TensorError::WrongMethod && *self is Instance,
            },
    {
        match self {
            ValTensor::Value { inner, .. } => Ok(inner),
            ValTensor::Instance { .. } => Err(TensorError::WrongMethod),
        }
    }

    /// The inner values as a plain integer tensor; refused on an
    /// instance reference.
    pub fn get_inner(&self) -> (r: Result<Tensor<i128>, TensorError>)
        requires
            vt_wf(*self),
        ensures
            match r {
                Ok(t) => {
                    &&& *self is Value
                    &&& (*self matches ValTensor::Value { inner, .. } ==> t.wf() && t.shape()
                        == inner.shape() && t.data().len() == inner.data().len() && forall|i: int|
                        0 <= i < t.data().len() ==> t.data()[i] == inner.data()[i].spec_int())
                },
                Err(e) => e == TensorError::WrongMethod && *self is Instance,
            },
    {
        match self {
            ValTensor::Value { inner, .. } => {
                let len = inner.len();
                let mut out: Vec<i128> = Vec::new();
                let mut i: usize = 0;
                while i < len
                    invariant
                        i <= len,
                        inner.wf(),
                        len == inner.data().len(),
                        out@.len() == i,
                        forall|j: int|
                            0 <= j < i ==> out@[j] == inner.data()[j].spec_int(),
                    decreases len - i,
                {
                    let v = inner.get_flat(i);
                    out.push(v.int_value());
                    i = i + 1;
                }
                Ok(inner.with_data(out))
            },
            ValTensor::Instance { .. } => Err(TensorError::WrongMethod),
        }
    }

    /// Broadcasts the inner tensor to the given shape; refused on an
    /// instance reference.
    pub fn expand(&mut self, dims: &[usize]) -> (r: Result<(), TensorError>)
        requires
            vt_wf(*old(self)),
            *old(self) matches ValTensor::Value { inner, .. } ==> crate::tensor::expandable(
                inner.shape(),
                dims@,
            ) && shape_volume(dims@) <= usize::MAX,
        ensures
            vt_wf(*final(self)),
            match r {
                Ok(_) => {
                    &&& *old(self) is Value
                    &&& vt_dims(*final(self)) == dims@
                    &&& vt_scale(*final(self)) == vt_scale(*old(self))
                },
                Err(e) => {
                    &&& e == TensorError::WrongMethod
                    &&& *old(self) is Instance
                    &&& *final(self) == *old(self)
                },
            },
    {
        match self {
            ValTensor::Value { inner, dims: d, .. } => {
                let expanded = match inner.expand(dims) {
                    Ok(t) => t,
                    Err(e) => {
                        proof {
                            assert(false);
                        }
                        return Err(e);
                    },
                };
                *inner = expanded;
                *d = crate::tensor::slice_to_vec(dims);
                Ok(())
            },
            ValTensor::Instance { .. } => Err(TensorError::WrongMethod),
        }
    }

    /// Reshapes the container; a value variant reshapes its tensor,
    /// an instance reference only re-declares its shape.
    pub fn reshape(&mut self, new_dims: &[usize]) -> (r: Result<(), TensorError>)
        requires
            vt_wf(*old(self)),
            *old(self) is Value ==> shape_volume(new_dims@) == shape_volume(
                vt_dims(*old(self)),
            ),
        ensures
            vt_wf(*final(self)),
            match r {
                Ok(_) => {
                    &&& vt_dims(*final(self)) == new_dims@
                    &&& vt_scale(*final(self)) == vt_scale(*old(self))
                },
                Err(e) => {
                    &&& e == TensorError::DimError
                    &&& *old(self) is Instance
                    &&& *final(self) == *old(self)
                },
            },
    {
        match self {
            ValTensor::Value { inner, dims: d, .. } => {
                inner.reshape(new_dims);
                *d = crate::tensor::slice_to_vec(new_dims);
                Ok(())
            },
            ValTensor::Instance { dims: d, .. } => {
                let ok = match (
                    crate::tensor::checked_volume(d.as_slice()),
                    crate::tensor::checked_volume(new_dims),
                ) {
                    (Some(a), Some(b)) => a == b,
                    _ => false,
                };
                if !ok {
                    return Err(TensorError::DimError);
                }
                *d = crate::tensor::slice_to_vec(new_dims);
                Ok(())
            },
        }
    }

    /// Flattens the container to a single axis.
    pub fn flatten(&mut self)
        requires
            vt_wf(*old(self)),
            shape_volume(vt_dims(*old(self))) <= usize::MAX,
        ensures
            vt_wf(*final(self)),
            vt_dims(*final(self)) == seq![shape_volume(vt_dims(*old(self))) as usize],
            vt_scale(*final(self)) == vt_scale(*old(self)),
    {
        match self {
            ValTensor::Value { inner, dims: d, .. } => {
                inner.flatten();
                let n = inner.len();
                let mut nd: Vec<usize> = Vec::new();
                nd.push(n);
                proof {
                    assert(nd@ =~= seq![n]);
                }
                *d = nd;
            },
            ValTensor::Instance { dims: d, .. } => {
                let n = match crate::tensor::checked_volume(d.as_slice()) {
                    Some(v) => v,
                    None => {
                        proof {
                            assert(false);
                        }
                        0
                    },
                };
                let mut nd: Vec<usize> = Vec::new();
                nd.push(n);
                proof {
                    assert(nd@ =~= seq![n]);
                }
                *d = nd;
            },
        }
    }

    /// A dense copy of the region the ranges select; refused on an
    /// instance reference.
    pub fn get_slice(&self, indices: &[Range<usize>]) -> (r: Result<ValTensor, TensorError>)
        requires
            vt_wf(*self),
            *self matches ValTensor::Value { inner, .. } ==> indices@.len()
                <= inner.shape().len() && ranges_in_bounds(inner.shape(), indices@),
        ensures
            match r {
                Ok(v) => {
                    &&& *self is Value
                    &&& vt_wf(v)
                    &&& vt_scale(v) == vt_scale(*self)
                    &&& (*self matches ValTensor::Value { inner, .. } ==> vt_dims(v)
                        == slice_shape(inner.shape(), indices@))
                },
                Err(e) => e == TensorError::WrongMethod && *self is Instance,
            },
    {
        match self {
            ValTensor::Value { inner, scale, .. } => {
                let sliced = match inner.get_slice(indices) {
                    Ok(t) => t,
                    Err(_) => {
                        proof {
                            assert(false);
                        }
                        return Err(TensorError::WrongMethod);
                    },
                };
                let dims = sliced.dims_vec();
                Ok(ValTensor::Value { inner: sliced, dims, scale: *scale })
            },
            ValTensor::Instance { .. } => Err(TensorError::WrongMethod),
        }
    }

    /// Restricts one axis of the inner tensor to `[start, end)`,
    /// keeping the other axes whole; refused on an instance
    /// reference.
    pub fn slice(&mut self, axis: usize, start: usize, end: usize) -> (r: Result<
        (),
        TensorError,
    >)
        requires
            vt_wf(*old(self)),
            *old(self) matches ValTensor::Value { inner, .. } ==> axis < inner.shape().len()
                && start <= end && end <= inner.shape()[axis as int],
        ensures
            vt_wf(*final(self)),
            match r {
                Ok(_) => {
                    &&& *old(self) is Value
                    &&& vt_scale(*final(self)) == vt_scale(*old(self))
                    &&& vt_dims(*final(self)).len() == vt_dims(*old(self)).len()
                    &&& vt_dims(*final(self))[axis as int] == end - start
                    &&& forall|i: int|
                        0 <= i < vt_dims(*old(self)).len() && i != axis ==> vt_dims(
                            *final(self),
                        )[i] == vt_dims(*old(self))[i]
                },
                Err(e) => {
                    &&& e == TensorError::WrongMethod
                    &&& *old(self) is Instance
                    &&& *final(self) == *old(self)
                },
            },
    {
        match self {
            ValTensor::Value { inner, dims: d, .. } => {
                let ghost pre = inner.shape();
                let mut ranges: Vec<Range<usize>> = Vec::new();
                let mut i: usize = 0;
                while i < axis
                    invariant
                        i <= axis,
                        inner.wf(),
                        inner.shape() == pre,
                        axis < pre.len(),
                        ranges@.len() == i,
                        forall|j: int|
                            #![trigger ranges@[j]]
                            0 <= j < i ==> ranges@[j].start == 0 && ranges@[j].end == pre[j],
                    decreases axis - i,
                {
                    let hi = inner.dim_at(i);
                    ranges.push(0..hi);
                    i = i + 1;
                }
                ranges.push(start..end);
                let sliced = match inner.get_slice(ranges.as_slice()) {
                    Ok(t) => t,
                    Err(_) => {
                        proof {
                            assert(false);
                        }
                        return Err(TensorError::WrongMethod);
                    },
                };
                proof {
                    let ss = crate::tensor::slice_shape(pre, ranges@);
                    assert(ss.len() == pre.len());
                    assert(ss[axis as int] == end - start);
                }
                let nd = sliced.dims_vec();
                *inner = sliced;
                *d = nd;
                Ok(())
            },
            ValTensor::Instance { .. } => Err(TensorError::WrongMethod),
        }
    }

    /// Duplicates one element of the inner tensor every `n`; refused
    /// on an instance reference.
    pub fn duplicate_every_n(&mut self, n: usize, initial_offset: usize) -> (r: Result<
        (),
        TensorError,
    >)
        requires
            vt_wf(*old(self)),
            n >= 1,
            *old(self) matches ValTensor::Value { inner, .. } ==> initial_offset + 2
                * inner.data().len() + 1 <= usize::MAX,
        ensures
            vt_wf(*final(self)),
            match r {
                Ok(_) => {
                    &&& *old(self) is Value
                    &&& vt_scale(*final(self)) == vt_scale(*old(self))
                    &&& (*old(self) matches ValTensor::Value { inner, .. } ==> (*final(self)
                        matches ValTensor::Value { inner: i2, .. } && i2.data()
                        == crate::tensor::dup_every_n(
                        inner.data(),
                        n as int,
                        0,
                        initial_offset as int,
                    )))
                },
                Err(e) => {
                    &&& e == TensorError::WrongMethod
                    &&& *old(self) is Instance
                    &&& *final(self) == *old(self)
                },
            },
    {
        match self {
            ValTensor::Value { inner, dims: d, .. } => {
                let dup = match inner.duplicate_every_n(n, initial_offset) {
                    Ok(t) => t,
                    Err(e) => {
                        proof {
                            assert(false);
                        }
                        return Err(e);
                    },
                };
                let nd = dup.dims_vec();
                *inner = dup;
                *d = nd;
                Ok(())
            },
            ValTensor::Instance { .. } => Err(TensorError::WrongMethod),
        }
    }

    /// Removes one element of the inner tensor every `n`; refused on
    /// an instance reference.
    pub fn remove_every_n(&mut self, n: usize, initial_offset: usize) -> (r: Result<
        (),
        TensorError,
    >)
        requires
            vt_wf(*old(self)),
            n >= 1,
            *old(self) matches ValTensor::Value { inner, .. } ==> initial_offset
                + inner.data().len() + 1 <= usize::MAX,
        ensures
            vt_wf(*final(self)),
            match r {
                Ok(_) => {
                    &&& *old(self) is Value
                    &&& vt_scale(*final(self)) == vt_scale(*old(self))
                    &&& (*old(self) matches ValTensor::Value { inner, .. } ==> (*final(self)
                        matches ValTensor::Value { inner: i2, .. } && i2.data()
                        == crate::tensor::rm_every_n(
                        inner.data(),
                        n as int,
                        0,
                        initial_offset as int,
                    )))
                },
                Err(e) => {
                    &&& e == TensorError::WrongMethod
                    &&& *old(self) is Instance
                    &&& *final(self) == *old(self)
                },
            },
    {
        match self {
            ValTensor::Value { inner, dims: d, .. } => {
                let rm = match inner.remove_every_n(n, initial_offset) {
                    Ok(t) => t,
                    Err(e) => {
                        proof {
                            assert(false);
                        }
                        return Err(e);
                    },
                };
                let nd = rm.dims_vec();
                *inner = rm;
                *d = nd;
                Ok(())
            },
            ValTensor::Instance { .. } => Err(TensorError::WrongMethod),
        }
    }

    /// Inserts a filler between the inner tensor's elements along one
    /// axis; refused on an instance reference.
    pub fn intercalate_values(&mut self, value: ValType, stride: usize, axis: usize) -> (r: Result<
        (),
        TensorError,
    >)
        requires
            vt_wf(*old(self)),
            stride >= 1,
            *old(self) matches ValTensor::Value { inner, .. } ==> axis < inner.shape().len()
                && inner.shape()[axis as int] >= 1 && (inner.shape()[axis as int] - 1) * stride + 1
                <= usize::MAX && crate::tensor::shape_volume(
                crate::tensor::intercalated_shape(inner.shape(), stride, axis as int),
            ) <= usize::MAX,
        ensures
            vt_wf(*final(self)),
            match r {
                Ok(_) => {
                    &&& *old(self) is Value
                    &&& vt_scale(*final(self)) == vt_scale(*old(self))
                    &&& (*old(self) matches ValTensor::Value { inner, .. } ==> vt_dims(
                        *final(self),
                    ) == crate::tensor::intercalated_shape(inner.shape(), stride, axis as int))
                },
                Err(e) => {
                    &&& e == TensorError::WrongMethod
                    &&& *old(self) is Instance
                    &&& *final(self) == *old(self)
                },
            },
    {
        match self {
            ValTensor::Value { inner, dims: d, .. } => {
                let next = match crate::tensor::intercalate_values(inner, value, stride, axis) {
                    Ok(t) => t,
                    Err(e) => {
                        proof {
                            assert(false);
                        }
                        return Err(e);
                    },
                };
                let nd = next.dims_vec();
                *inner = next;
                *d = nd;
                Ok(())
            },
            ValTensor::Instance { .. } => Err(TensorError::WrongMethod),
        }
    }

    /// Upsamples the inner tensor by the per-axis factors; refused on
    /// an instance reference.
    pub fn resize(&mut self, scales: &[usize]) -> (r: Result<(), TensorError>)
        requires
            vt_wf(*old(self)),
            *old(self) matches ValTensor::Value { inner, .. } ==> scales@.len()
                == inner.shape().len() && (forall|i: int|
                0 <= i < scales@.len() ==> scales@[i] >= 1) && (forall|i: int|
                0 <= i < inner.shape().len() ==> (inner.shape()[i] as int) * (scales@[i] as int)
                    <= usize::MAX) && crate::tensor::shape_volume(
                crate::tensor::resized_shape(inner.shape(), scales@),
            ) <= usize::MAX,
        ensures
            vt_wf(*final(self)),
            match r {
                Ok(_) => {
                    &&& *old(self) is Value
                    &&& vt_scale(*final(self)) == vt_scale(*old(self))
                    &&& (*old(self) matches ValTensor::Value { inner, .. } ==> vt_dims(
                        *final(self),
                    ) == crate::tensor::resized_shape(inner.shape(), scales@))
                },
                Err(e) => {
                    &&& e == TensorError::WrongMethod
                    &&& *old(self) is Instance
                    &&& *final(self) == *old(self)
                },
            },
    {
        match self {
            ValTensor::Value { inner, dims: d, .. } => {
                let next = match crate::tensor::resize(inner, scales) {
                    Ok(t) => t,
                    Err(e) => {
                        proof {
                            assert(false);
                        }
                        return Err(e);
                    },
                };
                let nd = next.dims_vec();
                *inner = next;
                *d = nd;
                Ok(())
            },
            ValTensor::Instance { .. } => Err(TensorError::WrongMethod),
        }
    }

    /// Pads the two spatial axes of the inner rank-three tensor with
    /// known zeros; refused on an instance reference.
    pub fn pad(&mut self, padding: (usize, usize)) -> (r: Result<(), TensorError>)
        requires
            vt_wf(*old(self)),
            *old(self) matches ValTensor::Value { inner, .. } ==> inner.shape().len() == 3
                && inner.shape()[1] + 2 * padding.0 <= usize::MAX && inner.shape()[2] + 2
                * padding.1 <= usize::MAX && crate::tensor::shape_volume(
                crate::tensor::padded_shape(inner.shape(), padding.0, padding.1),
            ) <= usize::MAX,
        ensures
            vt_wf(*final(self)),
            match r {
                Ok(_) => {
                    &&& *old(self) is Value
                    &&& vt_scale(*final(self)) == vt_scale(*old(self))
                    &&& (*old(self) matches ValTensor::Value { inner, .. } ==> vt_dims(
                        *final(self),
                    ) == crate::tensor::padded_shape(inner.shape(), padding.0, padding.1))
                },
                Err(e) => {
                    &&& e == TensorError::WrongMethod
                    &&& *old(self) is Instance
                    &&& *final(self) == *old(self)
                },
            },
    {
        match self {
            ValTensor::Value { inner, dims: d, .. } => {
                let next = match crate::tensor::pad(inner, padding, ValType::Value(0)) {
                    Ok(t) => t,
                    Err(e) => {
                        proof {
                            assert(false);
                        }
                        return Err(e);
                    },
                };
                let nd = next.dims_vec();
                *inner = next;
                *d = nd;
                Ok(())
            },
            ValTensor::Instance { .. } => Err(TensorError::WrongMethod),
        }
    }

    /// Concatenates two value containers into a flat one; refused
    /// when either is an instance reference.
    pub fn concat(&self, other: &ValTensor) -> (r: Result<ValTensor, TensorError>)
        requires
            vt_wf(*self),
            vt_wf(*other),
        ensures
            match r {
                Ok(v) => {
                    &&& *self is Value && *other is Value
                    &&& vt_wf(v)
                    &&& (*self matches ValTensor::Value { inner: a, .. } && *other
                        matches ValTensor::Value { inner: b, .. } ==> (v
                        matches ValTensor::Value { inner: c, .. } && c.data() == a.data()
                        + b.data()))
                },
                Err(e) => e == TensorError::WrongMethod && (*self is Instance || *other
                    is Instance),
            },
    {
        match (self, other) {
            (ValTensor::Value { inner: a, scale, .. }, ValTensor::Value { inner: b, .. }) => {
                let joined = a.concat_flat(b);
                let dims = joined.dims_vec();
                Ok(ValTensor::Value { inner: joined, dims, scale: *scale })
            },
            _ => Err(TensorError::WrongMethod),
        }
    }
}

} // verus!
