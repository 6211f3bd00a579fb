//! The fixed-point tensor kernel: dense n-dimensional arrays stored as a
//! flat row-major buffer together with a shape vector.

use core::ops::Range;
use vstd::arithmetic::power::{pow, lemma0_pow};
use vstd::prelude::*;

verus! {

/// Errors raised by tensor operations.
#[derive(Clone, Copy, Debug, PartialEq, Eq, Structural)]
pub enum TensorError {
    /// The input shapes of an operation do not satisfy its precondition.
    DimMismatch,
    /// The buffer length does not match the shape when instantiating or
    /// manipulating a tensor.
    DimError,
    /// The method is not supported by this variant of the container.
    WrongMethod,
    /// Significant bits would be truncated when instantiating.
    SigBitTruncationError,
}

/// Number of elements a shape describes: the product of its axes.
pub open spec fn shape_volume(dims: Seq<usize>) -> int
    decreases dims.len(),
{
    if dims.len() == 0 {
        1
    } else {
        dims[0] * shape_volume(dims.skip(1))
    }
}

/// All axes of a shape are non-zero.
pub open spec fn all_positive(dims: Seq<usize>) -> bool {
    forall|i: int| 0 <= i < dims.len() ==> dims[i] >= 1
}

/// `idx` addresses a cell of a tensor of shape `dims`.
pub open spec fn valid_index(dims: Seq<usize>, idx: Seq<usize>) -> bool {
    &&& idx.len() == dims.len()
    &&& forall|i: int| 0 <= i < idx.len() ==> idx[i] < dims[i]
}

/// Row-major address of `idx` in a tensor of shape `dims`:
/// the sum of `idx[i]` times the volume of the axes after `i`.
pub open spec fn row_major_index(dims: Seq<usize>, idx: Seq<usize>) -> int
    decreases dims.len(),
{
    if dims.len() == 0 {
        0
    } else {
        idx[0] * shape_volume(dims.skip(1)) + row_major_index(dims.skip(1), idx.skip(1))
    }
}

/// The coordinates of flat position `k` in a tensor of shape `dims`,
/// recovered by successive division from the last axis inward.
pub open spec fn coords_of(dims: Seq<usize>, k: int) -> Seq<usize>
    decreases dims.len(),
{
    if dims.len() == 0 {
        Seq::empty()
    } else {
        let d = dims.last() as int;
        coords_of(dims.drop_last(), k / d).push((k % d) as usize)
    }
}

/// The volume of a shape with no zero axis is positive.
pub proof fn lemma_volume_positive(dims: Seq<usize>)
    requires
        all_positive(dims),
    ensures
        shape_volume(dims) >= 1,
    decreases dims.len(),
{
    if dims.len() > 0 {
        assert(all_positive(dims.skip(1)));
        lemma_volume_positive(dims.skip(1));
        assert(dims[0] * shape_volume(dims.skip(1)) >= 1 * shape_volume(dims.skip(1)))
            by (nonlinear_arith)
            requires
                dims[0] >= 1,
                shape_volume(dims.skip(1)) >= 1,
        ;
    }
}

/// The volume of a shape is never negative.
pub proof fn lemma_volume_nonneg(dims: Seq<usize>)
    ensures
        shape_volume(dims) >= 0,
    decreases dims.len(),
{
    if dims.len() > 0 {
        lemma_volume_nonneg(dims.skip(1));
        assert(dims[0] * shape_volume(dims.skip(1)) >= 0) by (nonlinear_arith)
            requires
                dims[0] >= 0,
                shape_volume(dims.skip(1)) >= 0,
        ;
    }
}

/// A valid index addresses a cell inside the buffer: the row-major
/// address lies strictly below the shape's volume.
pub proof fn lemma_row_major_index_in_range(dims: Seq<usize>, idx: Seq<usize>)
    requires
        valid_index(dims, idx),
    ensures
        0 <= row_major_index(dims, idx),
        row_major_index(dims, idx) < shape_volume(dims),
    decreases dims.len(),
{
    if dims.len() == 0 {
        assert(shape_volume(dims) == 1);
    } else {
        let dt = dims.skip(1);
        let it = idx.skip(1);
        assert(valid_index(dt, it));
        lemma_row_major_index_in_range(dt, it);
        let v = shape_volume(dt);
        assert(idx[0] * v + row_major_index(dt, it) < dims[0] * v) by (nonlinear_arith)
            requires
                idx[0] < dims[0],
                0 <= row_major_index(dt, it) < v,
        ;
        assert(idx[0] * v >= 0) by (nonlinear_arith)
            requires
                idx[0] >= 0,
                v > 0,
        ;
    }
}

/// The element type of a tensor: a copyable value with an optional
/// zero, an optional unit and an optional ordering maximum.
pub trait TensorType: Copy {
    /// The zero value in specifications, if the type has one.
    spec fn spec_zero() -> Option<Self>;

    /// The unit value in specifications, if the type has one.
    spec fn spec_one() -> Option<Self>;

    /// Returns the zero value.
    fn zero() -> (r: Option<Self>)
        ensures
            r == Self::spec_zero(),
    ;

    /// Returns the unit value.
    fn one() -> (r: Option<Self>)
        ensures
            r == Self::spec_one(),
    ;

    /// Max operator for ordering values.
    fn tmax(&self, other: &Self) -> (r: Option<Self>);
}

impl TensorType for i128 {
    open spec fn spec_zero() -> Option<i128> {
        Some(0i128)
    }

    open spec fn spec_one() -> Option<i128> {
        Some(1i128)
    }

    fn zero() -> (r: Option<i128>) {
        Some(0)
    }

    fn one() -> (r: Option<i128>) {
        Some(1)
    }

    fn tmax(&self, other: &Self) -> (r: Option<i128>)
        ensures
            r == Some(if *self >= *other { *self } else { *other }),
    {
        if *self >= *other {
            Some(*self)
        } else {
            Some(*other)
        }
    }
}

impl TensorType for i32 {
    open spec fn spec_zero() -> Option<i32> {
        Some(0i32)
    }

    open spec fn spec_one() -> Option<i32> {
        Some(1i32)
    }

    fn zero() -> (r: Option<i32>) {
        Some(0)
    }

    fn one() -> (r: Option<i32>) {
        Some(1)
    }

    fn tmax(&self, other: &Self) -> (r: Option<i32>)
        ensures
            r == Some(if *self >= *other { *self } else { *other }),
    {
        if *self >= *other {
            Some(*self)
        } else {
            Some(*other)
        }
    }
}

impl TensorType for usize {
    open spec fn spec_zero() -> Option<usize> {
        Some(0usize)
    }

    open spec fn spec_one() -> Option<usize> {
        Some(1usize)
    }

    fn zero() -> (r: Option<usize>) {
        Some(0)
    }

    fn one() -> (r: Option<usize>) {
        Some(1)
    }

    fn tmax(&self, other: &Self) -> (r: Option<usize>)
        ensures
            r == Some(if *self >= *other { *self } else { *other }),
    {
        if *self >= *other {
            Some(*self)
        } else {
            Some(*other)
        }
    }
}

/// A generic multi-dimensional array: a flat buffer of values in
/// row-major order together with the dimensions that determine how it
/// is indexed, queried and sliced.
#[derive(Debug, PartialEq, Eq)]
pub struct Tensor<T> {
    inner: Vec<T>,
    dims: Vec<usize>,
}

impl<T> Tensor<T> {
    /// The flat buffer, in row-major order.
    pub closed spec fn data(&self) -> Seq<T> {
        self.inner@
    }

    /// The shape vector.
    pub closed spec fn shape(&self) -> Seq<usize> {
        self.dims@
    }

    /// Well-formedness: the buffer holds exactly one value per cell.
    pub open spec fn wf(&self) -> bool {
        self.data().len() == shape_volume(self.shape())
    }

    /// The value at coordinates `idx`.
    pub open spec fn at(&self, idx: Seq<usize>) -> T {
        self.data()[row_major_index(self.shape(), idx)]
    }

    /// The row-major buffer as a slice.
    pub fn as_slice(&self) -> (r: &[T])
        ensures
            r@ == self.data(),
    {
        self.inner.as_slice()
    }

    /// The tensor's dimensions as a fresh vector.
    pub fn dims_vec(&self) -> (r: Vec<usize>)
        ensures
            r@ == self.shape(),
    {
        slice_to_vec(self.dims.as_slice())
    }

    /// Returns the tensor's dimensions.
    pub fn dims(&self) -> (r: &[usize])
        ensures
            r@ == self.shape(),
    {
        self.dims.as_slice()
    }

    /// Returns the number of elements in the tensor.
    pub fn len(&self) -> (r: usize)
        requires
            self.wf(),
        ensures
            r == self.data().len(),
            r == shape_volume(self.shape()),
    {
        self.inner.len()
    }

    /// Checks whether the tensor holds no elements.
    pub fn is_empty(&self) -> (r: bool)
        requires
            self.wf(),
        ensures
            r == (self.data().len() == 0),
    {
        self.inner.len() == 0
    }

    /// Reshapes the tensor in place; the new shape must describe the
    /// same number of elements, and the buffer is not reallocated.
    pub fn reshape(&mut self, new_dims: &[usize])
        requires
            old(self).wf(),
            shape_volume(new_dims@) == old(self).data().len(),
        ensures
            final(self).wf(),
            final(self).shape() == new_dims@,
            final(self).data() == old(self).data(),
    {
        self.dims = slice_to_vec(new_dims);
    }

    /// Flattens the shape to a single axis holding every element.
    pub fn flatten(&mut self)
        requires
            old(self).wf(),
        ensures
            final(self).wf(),
            final(self).shape() =~= seq![old(self).data().len() as usize],
            final(self).data() == old(self).data(),
    {
        let n = self.inner.len();
        let mut d: Vec<usize> = Vec::new();
        d.push(n);
        proof {
            assert(d@ =~= seq![n]);
            assert(shape_volume(d@) == n * shape_volume(d@.skip(1)));
            assert(d@.skip(1) =~= Seq::<usize>::empty());
        }
        self.dims = d;
    }
}

/// Unfolding step for the volume of a suffix of a shape.
pub proof fn lemma_volume_skip_step(dims: Seq<usize>, i: int)
    requires
        0 <= i < dims.len(),
    ensures
        shape_volume(dims.skip(i)) == dims[i] * shape_volume(dims.skip(i + 1)),
{
    assert(dims.skip(i).skip(1) =~= dims.skip(i + 1));
    assert(dims.skip(i)[0] == dims[i]);
}

/// With no zero axis before position `i`, the volume of the suffix from
/// `i` on is no larger than the whole volume.
pub proof fn lemma_volume_skip_le(dims: Seq<usize>, i: int)
    requires
        0 <= i <= dims.len(),
        all_positive(dims),
    ensures
        shape_volume(dims.skip(i)) <= shape_volume(dims),
    decreases i,
{
    if i > 0 {
        lemma_volume_skip_le(dims, i - 1);
        lemma_volume_skip_step(dims, i - 1);
        lemma_volume_nonneg(dims.skip(i));
        assert(dims[i - 1] * shape_volume(dims.skip(i)) >= 1 * shape_volume(dims.skip(i)))
            by (nonlinear_arith)
            requires
                dims[i - 1] >= 1,
                shape_volume(dims.skip(i)) >= 0,
        ;
    } else {
        assert(dims.skip(0) =~= dims);
    }
}

/// Unfolding step for the row-major address over a suffix.
pub proof fn lemma_row_major_skip_step(dims: Seq<usize>, idx: Seq<usize>, i: int)
    requires
        0 <= i < dims.len(),
        idx.len() == dims.len(),
    ensures
        row_major_index(dims.skip(i), idx.skip(i)) == idx[i] * shape_volume(dims.skip(i + 1))
            + row_major_index(dims.skip(i + 1), idx.skip(i + 1)),
{
    assert(dims.skip(i).skip(1) =~= dims.skip(i + 1));
    assert(idx.skip(i).skip(1) =~= idx.skip(i + 1));
    assert(dims.skip(i)[0] == dims[i]);
    assert(idx.skip(i)[0] == idx[i]);
}

impl<T: Copy + Default> Tensor<T> {
    /// Creates a tensor holding the provided values, or one filled
    /// with the type's default — the zero of every numeric type —
    /// when no values are given.  Fails with `DimError` when the
    /// number of values does not match the shape's volume.
    pub fn new(values: Option<&[T]>, dims: &[usize]) -> (r: Result<Tensor<T>, TensorError>)
        requires
            values is None ==> shape_volume(dims@) <= usize::MAX,
        ensures
            match r {
                Ok(t) => {
                    &&& t.wf()
                    &&& t.shape() == dims@
                    &&& match values {
                        Some(v) => t.data() == v@,
                        None => {
                            &&& t.data().len() == shape_volume(dims@)
                            &&& forall|i: int, j: int|
                                0 <= i < t.data().len() && 0 <= j < t.data().len() ==> t.data()[i]
                                    == t.data()[j]
                        },
                    }
                },
                Err(e) => {
                    &&& e == TensorError::DimError
                    &&& values matches Some(v) && v@.len() != shape_volume(dims@)
                },
            },
    {
        match values {
            Some(v) => {
                let vlen = v.len();
                let total = checked_volume(dims);
                let matches = match total {
                    Some(n) => n == vlen,
                    None => false,
                };
                if !matches {
                    return Err(TensorError::DimError);
                }
                Ok(Tensor { inner: slice_to_vec(v), dims: slice_to_vec(dims) })
            },
            None => {
                let z: T = Default::default();
                let total = match checked_volume(dims) {
                    Some(n) => n,
                    None => {
                        proof {
                            assert(false);
                        }
                        return Err(TensorError::DimError);
                    },
                };
                let mut inner: Vec<T> = Vec::new();
                let mut i: usize = 0;
                while i < total
                    invariant
                        i <= total,
                        inner@.len() == i,
                        forall|j: int| 0 <= j < i ==> inner@[j] == z,
                    decreases total - i,
                {
                    inner.push(z);
                    i = i + 1;
                }
                Ok(Tensor { inner, dims: slice_to_vec(dims) })
            },
        }
    }
}

/// Computes the volume of a shape, or `None` when the product does not
/// fit in a machine word.
pub fn checked_volume(dims: &[usize]) -> (r: Option<usize>)
    ensures
        match r {
            Some(n) => n == shape_volume(dims@),
            None => shape_volume(dims@) > usize::MAX,
        },
{
    let mut i: usize = 0;
    while i < dims.len()
        invariant
            i <= dims@.len(),
            forall|j: int| 0 <= j < i ==> dims@[j] >= 1,
        decreases dims@.len() - i,
    {
        if dims[i] == 0 {
            proof {
                lemma_volume_prefix_zero(dims@, i as int);
            }
            return Some(0);
        }
        i = i + 1;
    }
    let mut acc: usize = 1;
    let mut k: usize = dims.len();
    while k > 0
        invariant
            k <= dims@.len(),
            all_positive(dims@),
            acc == shape_volume(dims@.skip(k as int)),
        decreases k,
    {
        k = k - 1;
        proof {
            lemma_volume_skip_step(dims@, k as int);
            lemma_volume_nonneg(dims@.skip(k as int + 1));
            assert(acc == shape_volume(dims@.skip(k as int + 1)));
            assert(shape_volume(dims@.skip(k as int)) == dims@[k as int] * shape_volume(
                dims@.skip(k as int + 1),
            ));
        }
        let d = dims[k];
        match acc.checked_mul(d) {
            Some(p) => {
                proof {
                    assert(d == dims@[k as int]);
                    assert(p == acc * d);
                    assert(p == dims@[k as int] * shape_volume(dims@.skip(k as int + 1)))
                        by (nonlinear_arith)
                        requires
                            p == acc * d,
                            d == dims@[k as int],
                            acc == shape_volume(dims@.skip(k as int + 1)),
                    ;
                }
                acc = p;
            },
            None => {
                proof {
                    assert(shape_volume(dims@.skip(k as int)) > usize::MAX) by (nonlinear_arith)
                        requires
                            acc * d > usize::MAX,
                            d == dims@[k as int],
                            acc == shape_volume(dims@.skip(k as int + 1)),
                            shape_volume(dims@.skip(k as int)) == dims@[k as int] * shape_volume(
                                dims@.skip(k as int + 1),
                            ),
                    ;
                    lemma_volume_prefix_overflow(dims@, k as int);
                }
                return None;
            },
        }
    }
    proof {
        assert(dims@.skip(0) =~= dims@);
    }
    Some(acc)
}

/// If the volume of the suffix from `i` on already exceeds the machine
/// word and every axis is positive, so does the whole volume.
proof fn lemma_volume_prefix_overflow(dims: Seq<usize>, i: int)
    requires
        0 <= i <= dims.len(),
        all_positive(dims),
        shape_volume(dims.skip(i)) > usize::MAX,
    ensures
        shape_volume(dims) > usize::MAX,
    decreases i,
{
    if i > 0 {
        lemma_volume_skip_step(dims, i - 1);
        let v = shape_volume(dims.skip(i));
        assert(dims[i - 1] * v >= 1 * v) by (nonlinear_arith)
            requires
                dims[i - 1] >= 1,
                v >= 0,
        ;
        lemma_volume_prefix_overflow(dims, i - 1);
    } else {
        assert(dims.skip(0) =~= dims);
    }
}

/// A zero axis collapses the whole volume to zero.
proof fn lemma_volume_prefix_zero(dims: Seq<usize>, i: int)
    requires
        0 <= i < dims.len(),
        dims[i] == 0,
    ensures
        shape_volume(dims) == 0,
    decreases i,
{
    if i > 0 {
        lemma_volume_prefix_zero(dims.skip(1), i - 1);
        assert(dims.skip(1)[i - 1] == dims[i]);
        assert(dims[0] * shape_volume(dims.skip(1)) == 0) by (nonlinear_arith)
            requires
                shape_volume(dims.skip(1)) == 0,
        ;
    } else {
        lemma_volume_skip_step(dims, 0);
        lemma_volume_nonneg(dims.skip(1));
    }
}

impl<T: Copy> Tensor<T> {
    /// Row-major flat address of the given coordinates.
    pub fn get_index(&self, indices: &[usize]) -> (r: usize)
        requires
            self.wf(),
            valid_index(self.shape(), indices@),
        ensures
            r == row_major_index(self.shape(), indices@),
            r < self.data().len(),
    {
        proof {
            lemma_row_major_index_in_range(self.shape(), indices@);
        }
        let ghost dims = self.shape();
        let ghost idx = indices@;
        let total = self.inner.len();
        let n = indices.len();
        let mut index: usize = 0;
        let mut d: usize = 1;
        let mut i: usize = n;
        proof {
            assert(dims.skip(n as int) =~= Seq::<usize>::empty());
            assert(idx.skip(n as int) =~= Seq::<usize>::empty());
        }
        while i > 0
            invariant
                i <= n,
                n == dims.len(),
                idx == indices@,
                idx.len() == n,
                valid_index(dims, idx),
                self.wf(),
                self.shape() == dims,
                index == row_major_index(dims.skip(i as int), idx.skip(i as int)),
                d == shape_volume(dims.skip(i as int)),
                shape_volume(dims) <= usize::MAX,
            decreases i,
        {
            i = i - 1;
            let ix = indices[i];
            proof {
                lemma_volume_skip_step(dims, i as int);
                lemma_row_major_skip_step(dims, idx, i as int);
                assert(valid_index(dims.skip(i as int), idx.skip(i as int)));
                lemma_row_major_index_in_range(dims.skip(i as int), idx.skip(i as int));
                lemma_volume_skip_le(dims, i as int);
                assert(ix * d == idx[i as int] * shape_volume(dims.skip(i as int + 1)))
                    by (nonlinear_arith)
                    requires
                        ix == idx[i as int],
                        d == shape_volume(dims.skip(i as int + 1)),
                ;
                assert(d * dims[i as int] == dims[i as int] * shape_volume(
                    dims.skip(i as int + 1),
                )) by (nonlinear_arith)
                    requires
                        d == shape_volume(dims.skip(i as int + 1)),
                ;
            }
            index = index + ix * d;
            d = d * self.dims[i];
        }
        proof {
            assert(dims.skip(0) =~= dims);
            assert(idx.skip(0) =~= idx);
        }
        index
    }

    /// The tensor's rank: the number of axes.
    pub fn dims_len(&self) -> (r: usize)
        ensures
            r == self.shape().len(),
    {
        self.dims.len()
    }

    /// The extent of one axis.
    pub fn dim_at(&self, i: usize) -> (r: usize)
        requires
            i < self.shape().len(),
        ensures
            r == self.shape()[i as int],
    {
        self.dims[i]
    }

    /// The element at flat position `i` of the row-major buffer.
    pub fn get_flat(&self, i: usize) -> (r: T)
        requires
            i < self.data().len(),
        ensures
            r == self.data()[i as int],
    {
        self.inner[i]
    }

    /// Get a single value from the tensor.
    pub fn get(&self, indices: &[usize]) -> (r: T)
        requires
            self.wf(),
            valid_index(self.shape(), indices@),
        ensures
            r == self.at(indices@),
    {
        let index = self.get_index(indices);
        self.inner[index]
    }

    /// Set one single value on the tensor.
    pub fn set(&mut self, indices: &[usize], value: T)
        requires
            old(self).wf(),
            valid_index(old(self).shape(), indices@),
        ensures
            final(self).wf(),
            final(self).shape() == old(self).shape(),
            final(self).data() == old(self).data().update(
                row_major_index(old(self).shape(), indices@),
                value,
            ),
    {
        let index = self.get_index(indices);
        self.inner.set(index, value);
    }
}

/// The volume of a non-empty shape splits off its last axis.
pub proof fn lemma_volume_unsnoc(dims: Seq<usize>)
    requires
        dims.len() > 0,
    ensures
        shape_volume(dims) == shape_volume(dims.drop_last()) * dims.last(),
    decreases dims.len(),
{
    if dims.len() == 1 {
        assert(dims.drop_last() =~= Seq::<usize>::empty());
        assert(dims.skip(1) =~= Seq::<usize>::empty());
        assert(shape_volume(Seq::<usize>::empty()) == 1);
        assert(shape_volume(dims) == dims[0] * 1);
    } else {
        let t = dims.skip(1);
        lemma_volume_unsnoc(t);
        assert(t.drop_last() =~= dims.drop_last().skip(1));
        assert(t.last() == dims.last());
        assert(shape_volume(dims) == dims[0] * shape_volume(t));
        assert(dims.drop_last()[0] == dims[0]);
        assert(shape_volume(dims.drop_last()) == dims[0] * shape_volume(t.drop_last()));
        assert(shape_volume(dims) == shape_volume(dims.drop_last()) * dims.last())
            by (nonlinear_arith)
            requires
                shape_volume(dims) == dims[0] * shape_volume(t),
                shape_volume(t) == shape_volume(t.drop_last()) * t.last(),
                shape_volume(dims.drop_last()) == dims[0] * shape_volume(t.drop_last()),
                t.last() == dims.last(),
        ;
    }
}

/// The row-major address of a non-empty index splits off its last axis.
pub proof fn lemma_row_major_unsnoc(dims: Seq<usize>, idx: Seq<usize>)
    requires
        dims.len() > 0,
        idx.len() == dims.len(),
    ensures
        row_major_index(dims, idx) == row_major_index(dims.drop_last(), idx.drop_last())
            * dims.last() + idx.last(),
    decreases dims.len(),
{
    if dims.len() == 1 {
        assert(dims.drop_last() =~= Seq::<usize>::empty());
        assert(dims.skip(1) =~= Seq::<usize>::empty());
        assert(idx.skip(1) =~= Seq::<usize>::empty());
        assert(shape_volume(Seq::<usize>::empty()) == 1);
        assert(row_major_index(Seq::<usize>::empty(), Seq::<usize>::empty()) == 0);
        assert(idx[0] * shape_volume(dims.skip(1)) == idx[0] * 1);
    } else {
        let dt = dims.skip(1);
        let it = idx.skip(1);
        lemma_row_major_unsnoc(dt, it);
        lemma_volume_unsnoc(dt);
        assert(dt.drop_last() =~= dims.drop_last().skip(1));
        assert(it.drop_last() =~= idx.drop_last().skip(1));
        assert(dt.last() == dims.last());
        assert(it.last() == idx.last());
        assert(row_major_index(dims, idx) == idx[0] * shape_volume(dt) + row_major_index(dt, it));
        assert(dims.drop_last()[0] == dims[0]);
        assert(idx.drop_last()[0] == idx[0]);
        assert(row_major_index(dims.drop_last(), idx.drop_last()) == idx[0] * shape_volume(
            dt.drop_last(),
        ) + row_major_index(dt.drop_last(), it.drop_last()));
        assert(row_major_index(dims, idx) == row_major_index(dims.drop_last(), idx.drop_last())
            * dims.last() + idx.last()) by (nonlinear_arith)
            requires
                row_major_index(dims, idx) == idx[0] * shape_volume(dt) + row_major_index(dt, it),
                shape_volume(dt) == shape_volume(dt.drop_last()) * dt.last(),
                row_major_index(dt, it) == row_major_index(dt.drop_last(), it.drop_last())
                    * dt.last() + it.last(),
                row_major_index(dims.drop_last(), idx.drop_last()) == idx[0] * shape_volume(
                    dt.drop_last(),
                ) + row_major_index(dt.drop_last(), it.drop_last()),
                dt.last() == dims.last(),
                it.last() == idx.last(),
        ;
    }
}

/// A shape with positive volume has no zero axis.
pub proof fn lemma_volume_pos_all_positive(dims: Seq<usize>)
    requires
        shape_volume(dims) > 0,
    ensures
        all_positive(dims),
{
    assert forall|i: int| 0 <= i < dims.len() implies dims[i] >= 1 by {
        if dims[i] == 0 {
            lemma_volume_prefix_zero(dims, i);
        }
    }
}

/// The coordinates recovered from a flat position are a valid index,
/// and they rank back to that position.
pub proof fn lemma_coords_of_inverse(dims: Seq<usize>, k: int)
    requires
        all_positive(dims),
        0 <= k < shape_volume(dims),
    ensures
        valid_index(dims, coords_of(dims, k)),
        row_major_index(dims, coords_of(dims, k)) == k,
    decreases dims.len(),
{
    if dims.len() == 0 {
        assert(coords_of(dims, k) =~= Seq::<usize>::empty());
    } else {
        let d = dims.last() as int;
        let front = dims.drop_last();
        lemma_volume_unsnoc(dims);
        assert(all_positive(front));
        lemma_volume_positive(front);
        assert(k / d < shape_volume(front)) by (nonlinear_arith)
            requires
                d >= 1,
                0 <= k,
                k < shape_volume(front) * d,
        ;
        assert(k / d >= 0) by (nonlinear_arith)
            requires
                d >= 1,
                0 <= k,
        ;
        lemma_coords_of_inverse(front, k / d);
        let c = coords_of(front, k / d).push((k % d) as usize);
        assert(c.drop_last() =~= coords_of(front, k / d));
        assert(0 <= k % d < d) by (nonlinear_arith)
            requires
                d >= 1,
        ;
        assert(valid_index(dims, c)) by {
            assert(forall|i: int|
                0 <= i < front.len() ==> c[i] == coords_of(front, k / d)[i] && dims[i] == front[i]);
        }
        lemma_row_major_unsnoc(dims, c);
        assert((k / d) * d + k % d == k) by (nonlinear_arith)
            requires
                d >= 1,
        ;
    }
}

/// Recovers the coordinates of flat position `k` in the shape made of
/// the first `m` axes of `dims`.
fn coords_prefix(dims: &[usize], m: usize, k: usize) -> (r: Vec<usize>)
    requires
        m <= dims@.len(),
        all_positive(dims@),
    ensures
        r@ == coords_of(dims@.subrange(0, m as int), k as int),
    decreases m,
{
    if m == 0 {
        proof {
            assert(coords_of(dims@.subrange(0, 0), k as int) =~= Seq::<usize>::empty());
        }
        Vec::new()
    } else {
        let d = dims[m - 1];
        let mut r = coords_prefix(dims, m - 1, k / d);
        r.push(k % d);
        proof {
            let s = dims@.subrange(0, m as int);
            assert(s.drop_last() =~= dims@.subrange(0, m as int - 1));
            assert(s.last() == dims@[m - 1]);
        }
        r
    }
}

/// Recovers the coordinates of flat position `k` in shape `dims`.
pub fn coords_from_index(dims: &[usize], k: usize) -> (r: Vec<usize>)
    requires
        all_positive(dims@),
    ensures
        r@ == coords_of(dims@, k as int),
{
    let r = coords_prefix(dims, dims.len(), k);
    proof {
        assert(dims@.subrange(0, dims@.len() as int) =~= dims@);
    }
    r
}

impl<T: Copy> Clone for Tensor<T> {
    /// Copies the buffer and the shape.
    fn clone(&self) -> (r: Self)
        ensures
            r.data() == self.data(),
            r.shape() == self.shape(),
    {
        let mut inner: Vec<T> = Vec::new();
        let mut i: usize = 0;
        while i < self.inner.len()
            invariant
                i <= self.inner@.len(),
                inner@ == self.inner@.subrange(0, i as int),
            decreases self.inner@.len() - i,
        {
            inner.push(self.inner[i]);
            proof {
                assert(inner@ =~= self.inner@.subrange(0, i + 1));
            }
            i = i + 1;
        }
        proof {
            assert(inner@ =~= self.inner@);
        }
        let r = Tensor { inner, dims: slice_to_vec(self.dims.as_slice()) };
        proof {
            assert(r.dims@ =~= self.dims@);
        }
        r
    }
}

impl<T> Tensor<T> {
    /// A tensor assembled from a row-major buffer and a matching
    /// shape.
    pub fn new_from_parts(inner: Vec<T>, dims: Vec<usize>) -> (r: Tensor<T>)
        requires
            inner@.len() == shape_volume(dims@),
        ensures
            r.wf(),
            r.data() == inner@,
            r.shape() == dims@,
    {
        Tensor { inner, dims }
    }

    /// A tensor with this tensor's shape over a freshly computed
    /// buffer of the same length.
    pub fn with_data<G>(&self, data: Vec<G>) -> (r: Tensor<G>)
        requires
            data@.len() == shape_volume(self.shape()),
        ensures
            r.wf(),
            r.shape() == self.shape(),
            r.data() == data@,
    {
        Tensor { inner: data, dims: slice_to_vec(self.dims.as_slice()) }
    }
}

/// Copies a slice into a freshly allocated vector.
pub fn slice_to_vec<T: Copy>(s: &[T]) -> (r: Vec<T>)
    ensures
        r@ == s@,
{
    let mut v: Vec<T> = Vec::new();
    let mut i: usize = 0;
    while i < s.len()
        invariant
            i <= s@.len(),
            v@ == s@.subrange(0, i as int),
        decreases s@.len() - i,
    {
        v.push(s[i]);
        proof {
            assert(v@ =~= s@.subrange(0, i + 1));
        }
        i = i + 1;
    }
    proof {
        assert(v@ =~= s@);
    }
    v
}

/// Pointwise smaller shapes have no larger volume.
pub proof fn lemma_volume_monotone(a: Seq<usize>, b: Seq<usize>)
    requires
        a.len() == b.len(),
        forall|i: int| 0 <= i < a.len() ==> a[i] <= b[i],
    ensures
        shape_volume(a) <= shape_volume(b),
    decreases a.len(),
{
    if a.len() > 0 {
        assert(forall|i: int|
            0 <= i < a.skip(1).len() ==> a.skip(1)[i] <= b.skip(1)[i]);
        lemma_volume_monotone(a.skip(1), b.skip(1));
        lemma_volume_nonneg(a.skip(1));
        lemma_volume_nonneg(b.skip(1));
        assert(a[0] * shape_volume(a.skip(1)) <= b[0] * shape_volume(b.skip(1)))
            by (nonlinear_arith)
            requires
                0 <= a[0] <= b[0],
                0 <= shape_volume(a.skip(1)) <= shape_volume(b.skip(1)),
        ;
    }
}

/// The ranges select a region inside a tensor of shape `dims`: each is
/// well ordered and ends within its axis.
pub open spec fn ranges_in_bounds(dims: Seq<usize>, ranges: Seq<Range<usize>>) -> bool {
    forall|i: int| #![trigger ranges[i]]
        0 <= i < ranges.len() ==> ranges[i].start <= ranges[i].end && ranges[i].end <= dims[i]
}

/// Shape of the slice a set of ranges selects: the length of each given
/// range, then the full remaining axes.
pub open spec fn slice_shape(dims: Seq<usize>, ranges: Seq<Range<usize>>) -> Seq<usize> {
    Seq::new(
        dims.len(),
        |i: int|
            if i < ranges.len() {
                (ranges[i].end - ranges[i].start) as usize
            } else {
                dims[i]
            },
    )
}

/// Slice coordinates shifted back into the source tensor by the range
/// starts.
pub open spec fn offset_coords(c: Seq<usize>, ranges: Seq<Range<usize>>) -> Seq<usize> {
    Seq::new(
        c.len(),
        |i: int|
            if i < ranges.len() {
                (c[i] + ranges[i].start) as usize
            } else {
                c[i]
            },
    )
}

/// `from` broadcasts to `to`: every axis of `from` equals the target
/// axis or is 1, with missing trailing axes left free.
pub open spec fn expandable(from: Seq<usize>, to: Seq<usize>) -> bool {
    &&& from.len() <= to.len()
    &&& forall|i: int| 0 <= i < from.len() ==> from[i] == 1 || from[i] == to[i]
}

/// Coordinates in the broadcast target mapped back onto the source:
/// axes of extent 1 collapse to coordinate 0, and axes beyond the
/// source's rank are dropped.
pub open spec fn broadcast_source(c: Seq<usize>, sdims: Seq<usize>) -> Seq<usize> {
    Seq::new(
        sdims.len(),
        |i: int|
            if sdims[i] == 1 {
                0usize
            } else {
                c[i]
            },
    )
}

impl<T: Copy> Tensor<T> {
    /// Get a dense copy of the region the ranges select; missing
    /// trailing ranges default to full axes.
    pub fn get_slice(&self, indices: &[Range<usize>]) -> (r: Result<Tensor<T>, TensorError>)
        requires
            self.wf(),
            indices@.len() <= self.shape().len() ==> ranges_in_bounds(self.shape(), indices@),
        ensures
            match r {
                Ok(t) => {
                    &&& indices@.len() <= self.shape().len()
                    &&& t.wf()
                    &&& t.shape() == slice_shape(self.shape(), indices@)
                    &&& forall|k: int|
                        0 <= k < t.data().len() ==> t.data()[k] == self.at(
                            offset_coords(coords_of(t.shape(), k), indices@),
                        )
                },
                Err(e) => {
                    &&& e == TensorError::DimError
                    &&& indices@.len() > self.shape().len()
                },
            },
    {
        let ghost dims = self.shape();
        if self.dims.len() < indices.len() {
            return Err(TensorError::DimError);
        }
        let ghost sshape = slice_shape(dims, indices@);
        let n = self.dims.len();
        let mut sdims: Vec<usize> = Vec::new();
        let mut i: usize = 0;
        while i < n
            invariant
                i <= n,
                n == dims.len(),
                indices@.len() <= n,
                ranges_in_bounds(dims, indices@),
                self.wf(),
                self.shape() == dims,
                sshape == slice_shape(dims, indices@),
                sdims@ == sshape.subrange(0, i as int),
            decreases n - i,
        {
            if i < indices.len() {
                proof {
                    assert(indices@[i as int].start <= indices@[i as int].end);
                }
                sdims.push(indices[i].end - indices[i].start);
            } else {
                sdims.push(self.dims[i]);
            }
            proof {
                assert(sdims@ =~= sshape.subrange(0, i + 1));
            }
            i = i + 1;
        }
        proof {
            assert(sdims@ =~= sshape);
            assert(forall|j: int| 0 <= j < n ==> sshape[j] <= dims[j]);
            lemma_volume_monotone(sshape, dims);
        }
        let total_len = self.inner.len();
        let vol = match checked_volume(sdims.as_slice()) {
            Some(v) => v,
            None => {
                proof {
                    assert(false);
                }
                return Err(TensorError::DimError);
            },
        };
        let mut out: Vec<T> = Vec::new();
        let mut k: usize = 0;
        while k < vol
            invariant
                k <= vol,
                n == dims.len(),
                indices@.len() <= n,
                ranges_in_bounds(dims, indices@),
                self.wf(),
                self.shape() == dims,
                sshape == slice_shape(dims, indices@),
                sdims@ == sshape,
                vol == shape_volume(sshape),
                out@.len() == k,
                forall|j: int|
                    0 <= j < k ==> out@[j] == self.data()[row_major_index(
                        dims,
                        offset_coords(coords_of(sshape, j), indices@),
                    )],
            decreases vol - k,
        {
            proof {
                lemma_volume_pos_all_positive(sshape);
                lemma_coords_of_inverse(sshape, k as int);
            }
            let c = coords_from_index(sdims.as_slice(), k);
            let ghost oc = offset_coords(coords_of(sshape, k as int), indices@);
            let mut sc: Vec<usize> = Vec::new();
            let mut j: usize = 0;
            while j < n
                invariant
                    j <= n,
                    n == dims.len(),
                    indices@.len() <= n,
                    ranges_in_bounds(dims, indices@),
                    c@ == coords_of(sshape, k as int),
                    valid_index(sshape, c@),
                    sshape == slice_shape(dims, indices@),
                    oc == offset_coords(c@, indices@),
                    sc@ == oc.subrange(0, j as int),
                decreases n - j,
            {
                if j < indices.len() {
                    proof {
                        assert(c@[j as int] < sshape[j as int]);
                        assert(sshape[j as int] == (indices@[j as int].end - indices@[j as int].start) as usize);
                        assert(indices@[j as int].start <= indices@[j as int].end);
                        assert(indices@[j as int].end <= dims[j as int]);
                    }
                    sc.push(c[j] + indices[j].start);
                } else {
                    sc.push(c[j]);
                }
                proof {
                    assert(sc@ =~= oc.subrange(0, j + 1));
                }
                j = j + 1;
            }
            proof {
                assert(sc@ =~= oc);
                assert(valid_index(dims, oc));
            }
            let v = self.get(sc.as_slice());
            out.push(v);
            k = k + 1;
        }
        Ok(Tensor { inner: out, dims: sdims })
    }

    /// Broadcasts the tensor to a given shape; each original axis must
    /// equal the target axis or be 1.
    pub fn expand(&self, shape: &[usize]) -> (r: Result<Tensor<T>, TensorError>)
        requires
            self.wf(),
            expandable(self.shape(), shape@),
            shape_volume(shape@) <= usize::MAX,
        ensures
            match r {
                Ok(t) => {
                    &&& t.wf()
                    &&& t.shape() == shape@
                    &&& forall|k: int|
                        0 <= k < t.data().len() ==> t.data()[k] == self.at(
                            broadcast_source(coords_of(shape@, k), self.shape()),
                        )
                },
                Err(_) => false,
            },
    {
        let ghost dims = self.shape();
        let ghost target = shape@;
        let n = self.dims.len();
        let vol = match checked_volume(shape) {
            Some(v) => v,
            None => {
                proof {
                    assert(false);
                }
                return Err(TensorError::DimError);
            },
        };
        let mut out: Vec<T> = Vec::new();
        let mut k: usize = 0;
        while k < vol
            invariant
                k <= vol,
                n == dims.len(),
                self.wf(),
                self.shape() == dims,
                target == shape@,
                expandable(dims, target),
                vol == shape_volume(target),
                out@.len() == k,
                forall|j: int|
                    0 <= j < k ==> out@[j] == self.data()[row_major_index(
                        dims,
                        broadcast_source(coords_of(target, j), dims),
                    )],
            decreases vol - k,
        {
            proof {
                lemma_volume_pos_all_positive(target);
                lemma_coords_of_inverse(target, k as int);
            }
            let c = coords_from_index(shape, k);
            let ghost bc = broadcast_source(coords_of(target, k as int), dims);
            let mut sc: Vec<usize> = Vec::new();
            let mut j: usize = 0;
            while j < n
                invariant
                    j <= n,
                    n == dims.len(),
                    self.wf(),
                    self.shape() == dims,
                    target == shape@,
                    expandable(dims, target),
                    c@ == coords_of(target, k as int),
                    valid_index(target, c@),
                    bc == broadcast_source(c@, dims),
                    sc@ == bc.subrange(0, j as int),
                decreases n - j,
            {
                if self.dims[j] == 1 {
                    sc.push(0);
                } else {
                    sc.push(c[j]);
                }
                proof {
                    assert(sc@ =~= bc.subrange(0, j + 1));
                }
                j = j + 1;
            }
            proof {
                assert(sc@ =~= bc);
                assert(valid_index(dims, bc));
            }
            let v = self.get(sc.as_slice());
            out.push(v);
            k = k + 1;
        }
        Ok(Tensor { inner: out, dims: slice_to_vec(shape) })
    }
}

/// The buffer with a second copy of every element whose running
/// position, counting earlier insertions and the initial offset, lands
/// on a multiple of `n`.
pub open spec fn dup_every_n<T>(data: Seq<T>, n: int, i: int, offset: int) -> Seq<T>
    decreases data.len() - i,
{
    if i < 0 || i >= data.len() {
        Seq::empty()
    } else if (i + offset + 1) % n == 0 {
        seq![data[i], data[i]] + dup_every_n(data, n, i + 1, offset + 1)
    } else {
        seq![data[i]] + dup_every_n(data, n, i + 1, offset)
    }
}

/// The buffer without every element whose position, shifted by the
/// initial offset, lands on a multiple of `n`.
pub open spec fn rm_every_n<T>(data: Seq<T>, n: int, i: int, offset: int) -> Seq<T>
    decreases data.len() - i,
{
    if i < 0 || i >= data.len() {
        Seq::empty()
    } else if (i + offset + 1) % n == 0 {
        rm_every_n(data, n, i + 1, offset)
    } else {
        seq![data[i]] + rm_every_n(data, n, i + 1, offset)
    }
}

/// The buffers of a sequence of tensors, concatenated in order.
pub open spec fn concat_all<T>(ts: Seq<Tensor<T>>) -> Seq<T>
    decreases ts.len(),
{
    if ts.len() == 0 {
        Seq::empty()
    } else {
        ts[0].data() + concat_all(ts.skip(1))
    }
}

impl<T: Copy> Tensor<T> {
    /// Duplicates one element every `n`, counting from after the
    /// initial offset; the result is flat.
    pub fn duplicate_every_n(&self, n: usize, initial_offset: usize) -> (r: Result<
        Tensor<T>,
        TensorError,
    >)
        requires
            self.wf(),
            n >= 1,
            initial_offset + 2 * self.data().len() + 1 <= usize::MAX,
        ensures
            match r {
                Ok(t) => {
                    &&& t.wf()
                    &&& t.data() == dup_every_n(
                        self.data(),
                        n as int,
                        0,
                        initial_offset as int,
                    )
                    &&& t.shape() == seq![t.data().len() as usize]
                },
                Err(_) => false,
            },
    {
        let ghost data = self.data();
        let ghost whole = dup_every_n(data, n as int, 0, initial_offset as int);
        let len = self.inner.len();
        let mut out: Vec<T> = Vec::new();
        let mut offset: usize = initial_offset;
        let mut i: usize = 0;
        proof {
            assert(out@ + dup_every_n(data, n as int, 0, initial_offset as int) =~= whole);
        }
        while i < len
            invariant
                i <= len,
                len == data.len(),
                self.data() == data,
                n >= 1,
                offset <= initial_offset + i,
                initial_offset + 2 * len + 1 <= usize::MAX,
                out@ + dup_every_n(data, n as int, i as int, offset as int) == whole,
            decreases len - i,
        {
            let elem = self.inner[i];
            let ghost pre = out@;
            let ghost rest = dup_every_n(data, n as int, i as int, offset as int);
            if (i + offset + 1) % n == 0 {
                proof {
                    assert(rest == seq![data[i as int], data[i as int]] + dup_every_n(
                        data,
                        n as int,
                        i as int + 1,
                        offset as int + 1,
                    ));
                }
                out.push(elem);
                out.push(elem);
                offset = offset + 1;
                proof {
                    assert(out@ =~= pre + seq![data[i as int], data[i as int]]);
                    assert((pre + seq![data[i as int], data[i as int]]) + dup_every_n(
                        data,
                        n as int,
                        i as int + 1,
                        offset as int,
                    ) =~= pre + rest);
                }
            } else {
                proof {
                    assert(rest == seq![data[i as int]] + dup_every_n(
                        data,
                        n as int,
                        i as int + 1,
                        offset as int,
                    ));
                }
                out.push(elem);
                proof {
                    assert(out@ =~= pre + seq![data[i as int]]);
                    assert((pre + seq![data[i as int]]) + dup_every_n(
                        data,
                        n as int,
                        i as int + 1,
                        offset as int,
                    ) =~= pre + rest);
                }
            }
            i = i + 1;
        }
        proof {
            assert(dup_every_n(data, n as int, len as int, offset as int) =~= Seq::<T>::empty());
            assert(out@ + Seq::<T>::empty() =~= out@);
        }
        let out_len = out.len();
        let mut d: Vec<usize> = Vec::new();
        d.push(out_len);
        let t = Tensor { inner: out, dims: d };
        proof {
            assert(t.shape() =~= seq![out_len]);
            assert(shape_volume(t.shape()) == out_len * shape_volume(t.shape().skip(1)));
            assert(t.shape().skip(1) =~= Seq::<usize>::empty());
        }
        Ok(t)
    }

    /// Removes one element every `n`, counting from after the initial
    /// offset; the result is flat.
    pub fn remove_every_n(&self, n: usize, initial_offset: usize) -> (r: Result<
        Tensor<T>,
        TensorError,
    >)
        requires
            self.wf(),
            n >= 1,
            initial_offset + self.data().len() + 1 <= usize::MAX,
        ensures
            match r {
                Ok(t) => {
                    &&& t.wf()
                    &&& t.data() == rm_every_n(self.data(), n as int, 0, initial_offset as int)
                    &&& t.shape() == seq![t.data().len() as usize]
                },
                Err(_) => false,
            },
    {
        let ghost data = self.data();
        let ghost whole = rm_every_n(data, n as int, 0, initial_offset as int);
        let len = self.inner.len();
        let mut out: Vec<T> = Vec::new();
        let mut i: usize = 0;
        proof {
            assert(out@ + rm_every_n(data, n as int, 0, initial_offset as int) =~= whole);
        }
        while i < len
            invariant
                i <= len,
                len == data.len(),
                self.data() == data,
                n >= 1,
                initial_offset + len + 1 <= usize::MAX,
                out@ + rm_every_n(data, n as int, i as int, initial_offset as int) == whole,
            decreases len - i,
        {
            let elem = self.inner[i];
            let ghost pre = out@;
            let ghost rest = rm_every_n(data, n as int, i as int, initial_offset as int);
            if (i + initial_offset + 1) % n == 0 {
                proof {
                    assert(rest == rm_every_n(data, n as int, i as int + 1, initial_offset as int));
                }
            } else {
                proof {
                    assert(rest == seq![data[i as int]] + rm_every_n(
                        data,
                        n as int,
                        i as int + 1,
                        initial_offset as int,
                    ));
                }
                out.push(elem);
                proof {
                    assert(out@ =~= pre + seq![data[i as int]]);
                    assert((pre + seq![data[i as int]]) + rm_every_n(
                        data,
                        n as int,
                        i as int + 1,
                        initial_offset as int,
                    ) =~= pre + rest);
                }
            }
            i = i + 1;
        }
        proof {
            assert(rm_every_n(data, n as int, len as int, initial_offset as int) =~= Seq::<
                T,
            >::empty());
            assert(out@ + Seq::<T>::empty() =~= out@);
        }
        let out_len = out.len();
        let mut d: Vec<usize> = Vec::new();
        d.push(out_len);
        let t = Tensor { inner: out, dims: d };
        proof {
            assert(t.shape() =~= seq![out_len]);
            assert(shape_volume(t.shape()) == out_len * shape_volume(t.shape().skip(1)));
            assert(t.shape().skip(1) =~= Seq::<usize>::empty());
        }
        Ok(t)
    }

    /// Maps a function over the elements, preserving the shape.
    pub fn map<G, F: Fn(T) -> G>(&self, f: F) -> (r: Tensor<G>)
        requires
            self.wf(),
            forall|i: int| 0 <= i < self.data().len() ==> call_requires(f, (self.data()[i],)),
        ensures
            r.wf(),
            r.shape() == self.shape(),
            r.data().len() == self.data().len(),
            forall|i: int|
                0 <= i < self.data().len() ==> call_ensures(f, (self.data()[i],), r.data()[i]),
    {
        let len = self.inner.len();
        let mut out: Vec<G> = Vec::new();
        let mut i: usize = 0;
        while i < len
            invariant
                i <= len,
                len == self.data().len(),
                forall|j: int| 0 <= j < len ==> call_requires(f, (self.data()[j],)),
                out@.len() == i,
                forall|j: int|
                    0 <= j < i ==> call_ensures(f, (self.data()[j],), out@[j]),
            decreases len - i,
        {
            let v = f(self.inner[i]);
            out.push(v);
            i = i + 1;
        }
        Tensor { inner: out, dims: slice_to_vec(self.dims.as_slice()) }
    }

    /// Maps a fallible function over the elements together with their
    /// flat position, propagating the first error.
    pub fn enum_map<G, E, F: Fn(usize, T) -> Result<G, E>>(&self, f: F) -> (r: Result<
        Tensor<G>,
        E,
    >)
        requires
            self.wf(),
            forall|i: int|
                0 <= i < self.data().len() ==> call_requires(f, (i as usize, self.data()[i])),
        ensures
            match r {
                Ok(t) => {
                    &&& t.wf()
                    &&& t.shape() == self.shape()
                    &&& t.data().len() == self.data().len()
                    &&& forall|i: int|
                        0 <= i < self.data().len() ==> call_ensures(
                            f,
                            (i as usize, self.data()[i]),
                            Ok(t.data()[i]),
                        )
                },
                Err(e) => exists|i: int|
                    0 <= i < self.data().len() && call_ensures(
                        f,
                        (i as usize, self.data()[i]),
                        Err(e),
                    ),
            },
    {
        let len = self.inner.len();
        let mut out: Vec<G> = Vec::new();
        let mut i: usize = 0;
        while i < len
            invariant
                i <= len,
                len == self.data().len(),
                forall|j: int|
                    0 <= j < len ==> call_requires(f, (j as usize, self.data()[j])),
                out@.len() == i,
                forall|j: int|
                    0 <= j < i ==> call_ensures(f, (j as usize, self.data()[j]), Ok(out@[j])),
            decreases len - i,
        {
            match f(i, self.inner[i]) {
                Ok(v) => {
                    out.push(v);
                },
                Err(e) => {
                    return Err(e);
                },
            }
            i = i + 1;
        }
        Ok(Tensor { inner: out, dims: slice_to_vec(self.dims.as_slice()) })
    }
}

impl<T: Copy> Tensor<T> {
    /// Concatenates two tensors' buffers into one flat tensor.
    pub fn concat_flat(&self, other: &Tensor<T>) -> (r: Tensor<T>)
        ensures
            r.wf(),
            r.data() == self.data() + other.data(),
            r.shape() == seq![r.data().len() as usize],
    {
        let mut out: Vec<T> = Vec::new();
        let mut i: usize = 0;
        while i < self.inner.len()
            invariant
                i <= self.inner@.len(),
                out@ == self.data().subrange(0, i as int),
            decreases self.inner@.len() - i,
        {
            out.push(self.inner[i]);
            proof {
                assert(out@ =~= self.data().subrange(0, i + 1));
            }
            i = i + 1;
        }
        proof {
            assert(self.data().subrange(0, self.data().len() as int) =~= self.data());
        }
        let mut j: usize = 0;
        while j < other.inner.len()
            invariant
                j <= other.inner@.len(),
                out@ == self.data() + other.data().subrange(0, j as int),
            decreases other.inner@.len() - j,
        {
            out.push(other.inner[j]);
            proof {
                assert(out@ =~= self.data() + other.data().subrange(0, j + 1));
            }
            j = j + 1;
        }
        proof {
            assert(other.data().subrange(0, other.data().len() as int) =~= other.data());
            assert(out@ =~= self.data() + other.data());
        }
        let n = out.len();
        let mut d: Vec<usize> = Vec::new();
        d.push(n);
        proof {
            assert(d@ =~= seq![n]);
            assert(d@.skip(1) =~= Seq::<usize>::empty());
            assert(shape_volume(Seq::<usize>::empty()) == 1);
            assert(shape_volume(d@) == n * shape_volume(d@.skip(1)));
        }
        Tensor { inner: out, dims: d }
    }
}

impl<T: Copy> Tensor<Tensor<T>> {
    /// Flattens a tensor of tensors into one flat tensor holding every
    /// inner buffer in order.
    pub fn combine(&self) -> (r: Result<Tensor<T>, TensorError>)
        requires
            self.wf(),
        ensures
            match r {
                Ok(t) => {
                    &&& t.wf()
                    &&& t.data() == concat_all(self.data())
                    &&& t.shape() == seq![t.data().len() as usize]
                },
                Err(_) => false,
            },
    {
        let ghost data = self.data();
        let ghost whole = concat_all(data);
        let len = self.inner.len();
        let mut out: Vec<T> = Vec::new();
        let mut i: usize = 0;
        proof {
            assert(data.skip(0) =~= data);
            assert(out@ + concat_all(data) =~= whole);
        }
        while i < len
            invariant
                i <= len,
                len == data.len(),
                self.data() == data,
                out@ + concat_all(data.skip(i as int)) == whole,
            decreases len - i,
        {
            let ghost pre = out@;
            let ghost cur = data[i as int].data();
            proof {
                assert(data.skip(i as int)[0] == data[i as int]);
                assert(data.skip(i as int).skip(1) =~= data.skip(i as int + 1));
                assert(concat_all(data.skip(i as int)) == cur + concat_all(
                    data.skip(i as int + 1),
                ));
            }
            let inner_len = self.inner[i].inner.len();
            let mut j: usize = 0;
            while j < inner_len
                invariant
                    j <= inner_len,
                    i < len,
                    len == data.len(),
                    self.data() == data,
                    cur == data[i as int].data(),
                    inner_len == cur.len(),
                    out@ == pre + cur.subrange(0, j as int),
                decreases inner_len - j,
            {
                out.push(self.inner[i].inner[j]);
                proof {
                    assert(out@ =~= pre + cur.subrange(0, j + 1));
                }
                j = j + 1;
            }
            proof {
                assert(cur.subrange(0, inner_len as int) =~= cur);
                assert((pre + cur) + concat_all(data.skip(i as int + 1)) =~= pre + (cur
                    + concat_all(data.skip(i as int + 1))));
            }
            i = i + 1;
        }
        proof {
            assert(concat_all(data.skip(len as int)) =~= Seq::<T>::empty());
            assert(out@ + Seq::<T>::empty() =~= out@);
        }
        let out_len = out.len();
        let mut d: Vec<usize> = Vec::new();
        d.push(out_len);
        let t = Tensor { inner: out, dims: d };
        proof {
            assert(t.shape() =~= seq![out_len]);
            assert(shape_volume(t.shape()) == out_len * shape_volume(t.shape().skip(1)));
            assert(t.shape().skip(1) =~= Seq::<usize>::empty());
        }
        Ok(t)
    }
}

/// Magnitude of an integer.
pub open spec fn abs1(a: int) -> int {
    if a < 0 {
        -a
    } else {
        a
    }
}

/// Rust's truncating division: the magnitudes are divided and the sign
/// is reapplied.
pub open spec fn div_trunc(a: int, b: int) -> int {
    let q = abs1(a) / abs1(b);
    if (a < 0) != (b < 0) {
        -q
    } else {
        q
    }
}

/// The shape two operands broadcast to: with equal ranks the
/// axis-wise maximum, otherwise the higher-ranked operand's shape.
pub open spec fn spec_broadcasted_shape(a: Seq<usize>, b: Seq<usize>) -> Seq<usize> {
    if a.len() == b.len() {
        Seq::new(
            a.len(),
            |i: int|
                if a[i] >= b[i] {
                    a[i]
                } else {
                    b[i]
                },
        )
    } else if a.len() < b.len() {
        b
    } else {
        a
    }
}

/// Both operands broadcast to their common shape.
pub open spec fn broadcast_compatible(a: Seq<usize>, b: Seq<usize>) -> bool {
    &&& expandable(a, spec_broadcasted_shape(a, b))
    &&& expandable(b, spec_broadcasted_shape(a, b))
}

/// The element a buffer of the given shape contributes at flat
/// position `k` of the broadcast shape `s`.
pub open spec fn broadcast_el_d(data: Seq<i128>, dims: Seq<usize>, s: Seq<usize>, k: int) -> i128 {
    data[row_major_index(dims, broadcast_source(coords_of(s, k), dims))]
}

/// The element a tensor contributes at flat position `k` of the
/// broadcast shape `s`.
pub open spec fn broadcast_el(t: Tensor<i128>, s: Seq<usize>, k: int) -> i128 {
    broadcast_el_d(t.data(), t.shape(), s, k)
}

/// Every broadcast element pair of the two buffers sums within the
/// machine range.
pub open spec fn add_in_range_d(
    d0: Seq<i128>,
    s0: Seq<usize>,
    d1: Seq<i128>,
    s1: Seq<usize>,
) -> bool {
    let s = spec_broadcasted_shape(s0, s1);
    forall|k: int| #![trigger broadcast_el_d(d0, s0, s, k)]
        0 <= k < shape_volume(s) ==> i128::MIN <= broadcast_el_d(d0, s0, s, k) + broadcast_el_d(
            d1,
            s1,
            s,
            k,
        ) <= i128::MAX
}

/// Every broadcast element pair sums within the machine range.
pub open spec fn add_in_range(a: Tensor<i128>, b: Tensor<i128>) -> bool {
    add_in_range_d(a.data(), a.shape(), b.data(), b.shape())
}

/// Every broadcast element pair of the two buffers subtracts within
/// the machine range.
pub open spec fn sub_in_range_d(
    d0: Seq<i128>,
    s0: Seq<usize>,
    d1: Seq<i128>,
    s1: Seq<usize>,
) -> bool {
    let s = spec_broadcasted_shape(s0, s1);
    forall|k: int| #![trigger broadcast_el_d(d0, s0, s, k)]
        0 <= k < shape_volume(s) ==> i128::MIN <= broadcast_el_d(d0, s0, s, k) - broadcast_el_d(
            d1,
            s1,
            s,
            k,
        ) <= i128::MAX
}

/// Every broadcast element pair subtracts within the machine range.
pub open spec fn sub_in_range(a: Tensor<i128>, b: Tensor<i128>) -> bool {
    sub_in_range_d(a.data(), a.shape(), b.data(), b.shape())
}

/// Every broadcast element pair of the two buffers multiplies within
/// the machine range.
pub open spec fn mul_in_range_d(
    d0: Seq<i128>,
    s0: Seq<usize>,
    d1: Seq<i128>,
    s1: Seq<usize>,
) -> bool {
    let s = spec_broadcasted_shape(s0, s1);
    forall|k: int| #![trigger broadcast_el_d(d0, s0, s, k)]
        0 <= k < shape_volume(s) ==> i128::MIN <= broadcast_el_d(d0, s0, s, k) * broadcast_el_d(
            d1,
            s1,
            s,
            k,
        ) <= i128::MAX
}

/// Every broadcast element pair multiplies within the machine range.
pub open spec fn mul_in_range(a: Tensor<i128>, b: Tensor<i128>) -> bool {
    mul_in_range_d(a.data(), a.shape(), b.data(), b.shape())
}

/// Every broadcast divisor is non-zero and no quotient overflows.
pub open spec fn div_defined(a: Tensor<i128>, b: Tensor<i128>) -> bool {
    let s = spec_broadcasted_shape(a.shape(), b.shape());
    forall|k: int| #![trigger broadcast_el(b, s, k)]
        0 <= k < shape_volume(s) ==> broadcast_el(b, s, k) != 0 && !(broadcast_el(a, s, k)
            == i128::MIN && broadcast_el(b, s, k) == -1)
}

/// Returns the broadcasted shape of two tensor shapes.
pub fn get_broadcasted_shape(shape_a: &[usize], shape_b: &[usize]) -> (r: Result<
    Vec<usize>,
    TensorError,
>)
    ensures
        match r {
            Ok(v) => v@ == spec_broadcasted_shape(shape_a@, shape_b@),
            Err(_) => false,
        },
{
    let na = shape_a.len();
    let nb = shape_b.len();
    if na == nb {
        let mut v: Vec<usize> = Vec::new();
        let mut i: usize = 0;
        while i < na
            invariant
                i <= na,
                na == shape_a@.len(),
                na == shape_b@.len(),
                v@ == spec_broadcasted_shape(shape_a@, shape_b@).subrange(0, i as int),
            decreases na - i,
        {
            if shape_a[i] >= shape_b[i] {
                v.push(shape_a[i]);
            } else {
                v.push(shape_b[i]);
            }
            proof {
                assert(v@ =~= spec_broadcasted_shape(shape_a@, shape_b@).subrange(0, i + 1));
            }
            i = i + 1;
        }
        proof {
            assert(v@ =~= spec_broadcasted_shape(shape_a@, shape_b@));
        }
        Ok(v)
    } else if na < nb {
        Ok(slice_to_vec(shape_b))
    } else {
        Ok(slice_to_vec(shape_a))
    }
}

impl Tensor<i128> {
    /// Broadcasts both operands to their common shape, then adds
    /// element by element.
    pub fn add(&self, rhs: &Tensor<i128>) -> (r: Result<Tensor<i128>, TensorError>)
        requires
            self.wf(),
            rhs.wf(),
            broadcast_compatible(self.shape(), rhs.shape()),
            shape_volume(spec_broadcasted_shape(self.shape(), rhs.shape())) <= usize::MAX,
            add_in_range(*self, *rhs),
        ensures
            match r {
                Ok(t) => {
                    &&& t.wf()
                    &&& t.shape() == spec_broadcasted_shape(self.shape(), rhs.shape())
                    &&& forall|k: int|
                        0 <= k < t.data().len() ==> t.data()[k] == broadcast_el(
                            *self,
                            t.shape(),
                            k,
                        ) + broadcast_el(*rhs, t.shape(), k)
                },
                Err(_) => false,
            },
    {
        let ghost s = spec_broadcasted_shape(self.shape(), rhs.shape());
        let bs = match get_broadcasted_shape(self.dims.as_slice(), rhs.dims.as_slice()) {
            Ok(v) => v,
            Err(_) => {
                proof {
                    assert(false);
                }
                return Err(TensorError::DimMismatch);
            },
        };
        let lhs = self.expand(bs.as_slice())?;
        let rhx = rhs.expand(bs.as_slice())?;
        let len = lhs.inner.len();
        let mut out: Vec<i128> = Vec::new();
        let mut k: usize = 0;
        while k < len
            invariant
                k <= len,
                s == spec_broadcasted_shape(self.shape(), rhs.shape()),
                lhs.wf(),
                rhx.wf(),
                lhs.shape() == s,
                rhx.shape() == s,
                len == lhs.data().len(),
                len == rhx.data().len(),
                forall|j: int|
                    0 <= j < len ==> lhs.data()[j] == broadcast_el(*self, s, j) && rhx.data()[j]
                        == broadcast_el(*rhs, s, j),
                add_in_range(*self, *rhs),
                len == shape_volume(s),
                out@.len() == k,
                forall|j: int|
                    0 <= j < k ==> out@[j] == broadcast_el(*self, s, j) + broadcast_el(
                        *rhs,
                        s,
                        j,
                    ),
            decreases len - k,
        {
            let v = lhs.inner[k] + rhx.inner[k];
            out.push(v);
            k = k + 1;
        }
        Ok(Tensor { inner: out, dims: bs })
    }

    /// Broadcasts both operands to their common shape, then subtracts
    /// element by element.
    pub fn sub(&self, rhs: &Tensor<i128>) -> (r: Result<Tensor<i128>, TensorError>)
        requires
            self.wf(),
            rhs.wf(),
            broadcast_compatible(self.shape(), rhs.shape()),
            shape_volume(spec_broadcasted_shape(self.shape(), rhs.shape())) <= usize::MAX,
            sub_in_range(*self, *rhs),
        ensures
            match r {
                Ok(t) => {
                    &&& t.wf()
                    &&& t.shape() == spec_broadcasted_shape(self.shape(), rhs.shape())
                    &&& forall|k: int|
                        0 <= k < t.data().len() ==> t.data()[k] == broadcast_el(
                            *self,
                            t.shape(),
                            k,
                        ) - broadcast_el(*rhs, t.shape(), k)
                },
                Err(_) => false,
            },
    {
        let ghost s = spec_broadcasted_shape(self.shape(), rhs.shape());
        let bs = match get_broadcasted_shape(self.dims.as_slice(), rhs.dims.as_slice()) {
            Ok(v) => v,
            Err(_) => {
                proof {
                    assert(false);
                }
                return Err(TensorError::DimMismatch);
            },
        };
        let lhs = self.expand(bs.as_slice())?;
        let rhx = rhs.expand(bs.as_slice())?;
        let len = lhs.inner.len();
        let mut out: Vec<i128> = Vec::new();
        let mut k: usize = 0;
        while k < len
            invariant
                k <= len,
                s == spec_broadcasted_shape(self.shape(), rhs.shape()),
                lhs.wf(),
                rhx.wf(),
                lhs.shape() == s,
                rhx.shape() == s,
                len == lhs.data().len(),
                len == rhx.data().len(),
                forall|j: int|
                    0 <= j < len ==> lhs.data()[j] == broadcast_el(*self, s, j) && rhx.data()[j]
                        == broadcast_el(*rhs, s, j),
                sub_in_range(*self, *rhs),
                len == shape_volume(s),
                out@.len() == k,
                forall|j: int|
                    0 <= j < k ==> out@[j] == broadcast_el(*self, s, j) - broadcast_el(
                        *rhs,
                        s,
                        j,
                    ),
            decreases len - k,
        {
            let v = lhs.inner[k] - rhx.inner[k];
            out.push(v);
            k = k + 1;
        }
        Ok(Tensor { inner: out, dims: bs })
    }

    /// Broadcasts both operands to their common shape, then multiplies
    /// element by element.
    pub fn mul(&self, rhs: &Tensor<i128>) -> (r: Result<Tensor<i128>, TensorError>)
        requires
            self.wf(),
            rhs.wf(),
            broadcast_compatible(self.shape(), rhs.shape()),
            shape_volume(spec_broadcasted_shape(self.shape(), rhs.shape())) <= usize::MAX,
            mul_in_range(*self, *rhs),
        ensures
            match r {
                Ok(t) => {
                    &&& t.wf()
                    &&& t.shape() == spec_broadcasted_shape(self.shape(), rhs.shape())
                    &&& forall|k: int|
                        0 <= k < t.data().len() ==> t.data()[k] == broadcast_el(
                            *self,
                            t.shape(),
                            k,
                        ) * broadcast_el(*rhs, t.shape(), k)
                },
                Err(_) => false,
            },
    {
        let ghost s = spec_broadcasted_shape(self.shape(), rhs.shape());
        let bs = match get_broadcasted_shape(self.dims.as_slice(), rhs.dims.as_slice()) {
            Ok(v) => v,
            Err(_) => {
                proof {
                    assert(false);
                }
                return Err(TensorError::DimMismatch);
            },
        };
        let lhs = self.expand(bs.as_slice())?;
        let rhx = rhs.expand(bs.as_slice())?;
        let len = lhs.inner.len();
        let mut out: Vec<i128> = Vec::new();
        let mut k: usize = 0;
        while k < len
            invariant
                k <= len,
                s == spec_broadcasted_shape(self.shape(), rhs.shape()),
                lhs.wf(),
                rhx.wf(),
                lhs.shape() == s,
                rhx.shape() == s,
                len == lhs.data().len(),
                len == rhx.data().len(),
                forall|j: int|
                    0 <= j < len ==> lhs.data()[j] == broadcast_el(*self, s, j) && rhx.data()[j]
                        == broadcast_el(*rhs, s, j),
                mul_in_range(*self, *rhs),
                len == shape_volume(s),
                out@.len() == k,
                forall|j: int|
                    0 <= j < k ==> out@[j] == broadcast_el(*self, s, j) * broadcast_el(
                        *rhs,
                        s,
                        j,
                    ),
            decreases len - k,
        {
            let v = lhs.inner[k] * rhx.inner[k];
            out.push(v);
            k = k + 1;
        }
        Ok(Tensor { inner: out, dims: bs })
    }

    /// Broadcasts both operands to their common shape, then divides
    /// element by element with truncation toward zero.
    pub fn div(&self, rhs: &Tensor<i128>) -> (r: Result<Tensor<i128>, TensorError>)
        requires
            self.wf(),
            rhs.wf(),
            broadcast_compatible(self.shape(), rhs.shape()),
            shape_volume(spec_broadcasted_shape(self.shape(), rhs.shape())) <= usize::MAX,
            div_defined(*self, *rhs),
        ensures
            match r {
                Ok(t) => {
                    &&& t.wf()
                    &&& t.shape() == spec_broadcasted_shape(self.shape(), rhs.shape())
                    &&& forall|k: int|
                        0 <= k < t.data().len() ==> t.data()[k] == div_trunc(
                            broadcast_el(*self, t.shape(), k) as int,
                            broadcast_el(*rhs, t.shape(), k) as int,
                        )
                },
                Err(_) => false,
            },
    {
        let ghost s = spec_broadcasted_shape(self.shape(), rhs.shape());
        let bs = match get_broadcasted_shape(self.dims.as_slice(), rhs.dims.as_slice()) {
            Ok(v) => v,
            Err(_) => {
                proof {
                    assert(false);
                }
                return Err(TensorError::DimMismatch);
            },
        };
        let lhs = self.expand(bs.as_slice())?;
        let rhx = rhs.expand(bs.as_slice())?;
        let len = lhs.inner.len();
        let mut out: Vec<i128> = Vec::new();
        let mut k: usize = 0;
        while k < len
            invariant
                k <= len,
                s == spec_broadcasted_shape(self.shape(), rhs.shape()),
                lhs.wf(),
                rhx.wf(),
                lhs.shape() == s,
                rhx.shape() == s,
                len == lhs.data().len(),
                len == rhx.data().len(),
                forall|j: int|
                    0 <= j < len ==> lhs.data()[j] == broadcast_el(*self, s, j) && rhx.data()[j]
                        == broadcast_el(*rhs, s, j),
                div_defined(*self, *rhs),
                len == shape_volume(s),
                out@.len() == k,
                forall|j: int|
                    0 <= j < k ==> out@[j] == div_trunc(
                        broadcast_el(*self, s, j) as int,
                        broadcast_el(*rhs, s, j) as int,
                    ),
            decreases len - k,
        {
            let v = div_i128(lhs.inner[k], rhx.inner[k]);
            out.push(v);
            k = k + 1;
        }
        Ok(Tensor { inner: out, dims: bs })
    }
}

/// Truncating division of machine integers, proved against its
/// mathematical characterisation.
pub fn div_i128(a: i128, b: i128) -> (r: i128)
    requires
        b != 0,
        !(a == i128::MIN && b == -1),
    ensures
        r == div_trunc(a as int, b as int),
{
    let r = match a.checked_div(b) {
        Some(q) => q,
        None => {
            proof {
                lemma_div_trunc_bound(a as int, b as int);
                assert(false);
            }
            0
        },
    };
    proof {
        lemma_div_trunc_bound(a as int, b as int);
    }
    r
}

/// The truncating quotient has no greater magnitude than the dividend,
/// so it stays inside the machine range away from the single overflow
/// case.
proof fn lemma_div_trunc_bound(a: int, b: int)
    requires
        b != 0,
        i128::MIN <= a <= i128::MAX,
        i128::MIN <= b <= i128::MAX,
        !(a == i128::MIN && b == -1),
    ensures
        i128::MIN <= div_trunc(a, b) <= i128::MAX,
        div_trunc(a, b) == {
            let output = if a == 0 {
                0int
            } else if a > 0 && b > 0 {
                a / b
            } else if a < 0 && b < 0 {
                ((a * -1) / (b * -1))
            } else if a < 0 {
                ((a * -1) / b) * -1
            } else {
                (a / (b * -1)) * -1
            };
            output
        },
{
    let p = abs1(a);
    let q = abs1(b);
    assert(q >= 1);
    assert(p >= 0);
    vstd::arithmetic::div_mod::lemma_div_pos_is_pos(p, q);
    assert(p / q >= 0);
    if p <= i128::MAX {
        vstd::arithmetic::div_mod::lemma_div_is_ordered_by_denominator(p, 1, q);
        vstd::arithmetic::div_mod::lemma_div_basics(p);
        assert(p / q <= p);
    } else {
        assert(a == i128::MIN);
        assert(p == 0x8000_0000_0000_0000_0000_0000_0000_0000);
        if q == 1 {
            assert(b == 1);
            vstd::arithmetic::div_mod::lemma_div_basics(p);
            assert(p / q == p);
        } else {
            vstd::arithmetic::div_mod::lemma_div_is_ordered_by_denominator(p, 2, q);
            assert(p / 2 == 0x4000_0000_0000_0000_0000_0000_0000_0000);
            assert(p / q <= p / 2);
        }
    }
    if a == 0 {
        assert(p / q == 0) by {
            vstd::arithmetic::div_mod::lemma_div_basics(q);
        }
    }
}

/// The exponent the power method actually applies: a zero exponent is
/// treated as one, matching exponentiation by squaring that always
/// multiplies the base in once.
pub open spec fn pow_exp(exp: u32) -> nat {
    if exp == 0 {
        1nat
    } else {
        exp as nat
    }
}

/// For exponents from one up, the magnitude of a power never exceeds
/// the magnitude of the final power.
proof fn lemma_pow_abs_le(x: int, j: nat, e: nat)
    requires
        1 <= j <= e,
    ensures
        abs1(pow(x, j)) <= abs1(pow(x, e)),
    decreases e,
{
    if j < e {
        lemma_pow_abs_le(x, j, (e - 1) as nat);
        assert(pow(x, e) == x * pow(x, (e - 1) as nat)) by {
            reveal(pow);
        }
        assert(abs1(x * pow(x, (e - 1) as nat)) == abs1(x) * abs1(pow(x, (e - 1) as nat)))
            by (nonlinear_arith);
        if x == 0 {
            lemma0_pow(j);
            lemma0_pow(e);
        } else {
            assert(abs1(x) >= 1);
            assert(abs1(x) * abs1(pow(x, (e - 1) as nat)) >= 1 * abs1(pow(x, (e - 1) as nat)))
                by (nonlinear_arith)
                requires
                    abs1(x) >= 1,
                    abs1(pow(x, (e - 1) as nat)) >= 0,
            ;
        }
    }
}

impl Tensor<i128> {
    /// Elementwise raises the tensor to the given power; a zero
    /// exponent leaves the elements unchanged, as one multiplication
    /// of the base is always applied.
    pub fn pow(&self, exp: u32) -> (r: Result<Tensor<i128>, TensorError>)
        requires
            self.wf(),
            forall|i: int| #![trigger self.data()[i]]
                0 <= i < self.data().len() ==> abs1(pow(self.data()[i] as int, pow_exp(exp)))
                    <= i128::MAX,
        ensures
            match r {
                Ok(t) => {
                    &&& t.wf()
                    &&& t.shape() == self.shape()
                    &&& t.data().len() == self.data().len()
                    &&& forall|i: int|
                        0 <= i < t.data().len() ==> t.data()[i] == pow(
                            self.data()[i] as int,
                            pow_exp(exp),
                        )
                },
                Err(_) => false,
            },
    {
        let e: u32 = if exp == 0 {
            1
        } else {
            exp
        };
        let len = self.inner.len();
        let mut out: Vec<i128> = Vec::new();
        let mut i: usize = 0;
        while i < len
            invariant
                i <= len,
                len == self.data().len(),
                e == pow_exp(exp),
                e >= 1,
                self.wf(),
                forall|j: int| #![trigger self.data()[j]]
                    0 <= j < len ==> abs1(pow(self.data()[j] as int, pow_exp(exp))) <= i128::MAX,
                out@.len() == i,
                forall|j: int|
                    0 <= j < i ==> out@[j] == pow(self.data()[j] as int, pow_exp(exp)),
            decreases len - i,
        {
            let b = self.inner[i];
            let mut acc: i128 = b;
            let mut j: u32 = 1;
            proof {
                assert(pow(b as int, 1) == (b as int) * pow(b as int, 0) && pow(b as int, 0)
                    == 1) by {
                    reveal(pow);
                }
            }
            while j < e
                invariant
                    1 <= j <= e,
                    e == pow_exp(exp),
                    acc == pow(b as int, j as nat),
                    abs1(pow(b as int, pow_exp(exp))) <= i128::MAX,
                decreases e - j,
            {
                proof {
                    lemma_pow_abs_le(b as int, (j + 1) as nat, e as nat);
                    assert(pow(b as int, (j + 1) as nat) == (b as int) * pow(b as int, j as nat))
                        by {
                        reveal(pow);
                    }
                    assert((b as int) * pow(b as int, j as nat) == pow(b as int, j as nat) * (
                    b as int)) by (nonlinear_arith);
                    assert(abs1(pow(b as int, (j + 1) as nat)) <= i128::MAX);
                    assert(i128::MIN <= pow(b as int, (j + 1) as nat) <= i128::MAX);
                }
                acc = acc * b;
                j = j + 1;
            }
            out.push(acc);
            i = i + 1;
        }
        Ok(Tensor { inner: out, dims: slice_to_vec(self.dims.as_slice()) })
    }
}

/// Multiplies every element of a tensor by a fixed multiplier; used to
/// align fixed-point scales before an operation.
pub fn rescale(t: &Tensor<i128>, mult: u128) -> (r: Result<Tensor<i128>, TensorError>)
    requires
        t.wf(),
        forall|i: int| #![trigger t.data()[i]]
            0 <= i < t.data().len() ==> i128::MIN <= t.data()[i] * mult <= i128::MAX,
    ensures
        match r {
            Ok(o) => {
                &&& o.wf()
                &&& o.shape() == t.shape()
                &&& o.data().len() == t.data().len()
                &&& forall|i: int|
                    0 <= i < o.data().len() ==> o.data()[i] == t.data()[i] * mult
            },
            Err(_) => false,
        },
{
    let len = t.inner.len();
    let mut out: Vec<i128> = Vec::new();
    let mut i: usize = 0;
    while i < len
        invariant
            i <= len,
            len == t.data().len(),
            forall|j: int| #![trigger t.data()[j]]
                0 <= j < len ==> i128::MIN <= t.data()[j] * mult <= i128::MAX,
            out@.len() == i,
            forall|j: int| 0 <= j < i ==> out@[j] == t.data()[j] * mult,
        decreases len - i,
    {
        let b = t.inner[i];
        proof {
            assert(b == t.data()[i as int]);
        }
        let v: i128 = if mult > i128::MAX as u128 {
            proof {
                if b >= 1 {
                    assert(b * mult >= mult) by (nonlinear_arith)
                        requires
                            b >= 1,
                            mult >= 0,
                    ;
                }
                if b <= -2 {
                    assert(b * mult <= (-2) * mult) by (nonlinear_arith)
                        requires
                            b <= -2,
                            mult >= 0,
                    ;
                }
                if b == -1 {
                    assert(b * mult == -mult) by (nonlinear_arith)
                        requires
                            b == -1,
                    ;
                }
            }
            if b == 0 {
                proof {
                    assert(b * mult == 0) by (nonlinear_arith)
                        requires
                            b == 0,
                    ;
                }
                0
            } else {
                proof {
                    assert(b == -1 && mult == i128::MAX as u128 + 1);
                    assert(b * mult == i128::MIN) by (nonlinear_arith)
                        requires
                            b == -1,
                            mult == i128::MAX as u128 + 1,
                    ;
                }
                i128::MIN
            }
        } else {
            let m = mult as i128;
            proof {
                assert(b * m == b * mult && i128::MIN <= b * m <= i128::MAX) by (nonlinear_arith)
                    requires
                        m == mult,
                        i128::MIN <= b * mult <= i128::MAX,
                ;
            }
            b * m
        };
        out.push(v);
        i = i + 1;
    }
    Ok(Tensor { inner: out, dims: slice_to_vec(t.dims.as_slice()) })
}

/// Broadcast addition is commutative: the two operand orders agree on
/// the broadcast shape and on every element of the result.
pub proof fn lemma_broadcast_add_commutes(a: Tensor<i128>, b: Tensor<i128>)
    ensures
        spec_broadcasted_shape(a.shape(), b.shape()) == spec_broadcasted_shape(
            b.shape(),
            a.shape(),
        ),
        forall|k: int| #![trigger broadcast_el(a, spec_broadcasted_shape(a.shape(), b.shape()), k)]
            broadcast_el(a, spec_broadcasted_shape(a.shape(), b.shape()), k) + broadcast_el(
                b,
                spec_broadcasted_shape(a.shape(), b.shape()),
                k,
            ) == broadcast_el(b, spec_broadcasted_shape(b.shape(), a.shape()), k) + broadcast_el(
                a,
                spec_broadcasted_shape(b.shape(), a.shape()),
                k,
            ),
{
    assert(spec_broadcasted_shape(a.shape(), b.shape()) =~= spec_broadcasted_shape(
        b.shape(),
        a.shape(),
    ));
}

/// The shape after nearest-neighbour upsampling: each axis stretched
/// by its factor.
pub open spec fn resized_shape(dims: Seq<usize>, scales: Seq<usize>) -> Seq<usize> {
    Seq::new(dims.len(), |i: int| (dims[i] * scales[i]) as usize)
}

/// The source cell an upsampled coordinate reads: each coordinate
/// divided by its axis factor.
pub open spec fn resize_source(c: Seq<usize>, scales: Seq<usize>) -> Seq<usize> {
    Seq::new(c.len(), |i: int| (c[i] as int / scales[i] as int) as usize)
}

/// Nearest-neighbour upsampling: every element is repeated along each
/// axis by that axis's factor.
pub fn resize<T: Copy>(t: &Tensor<T>, scales: &[usize]) -> (r: Result<Tensor<T>, TensorError>)
    requires
        t.wf(),
        scales@.len() == t.shape().len(),
        forall|i: int| 0 <= i < scales@.len() ==> scales@[i] >= 1,
        forall|i: int|
            0 <= i < t.shape().len() ==> (t.shape()[i] as int) * (scales@[i] as int) <= usize::MAX,
        shape_volume(resized_shape(t.shape(), scales@)) <= usize::MAX,
    ensures
        match r {
            Ok(o) => {
                &&& o.wf()
                &&& o.shape() == resized_shape(t.shape(), scales@)
                &&& forall|k: int|
                    0 <= k < o.data().len() ==> o.data()[k] == t.at(
                        resize_source(coords_of(o.shape(), k), scales@),
                    )
            },
            Err(_) => false,
        },
{
    let ghost dims = t.shape();
    let ghost target = resized_shape(dims, scales@);
    let n = scales.len();
    let mut sdims: Vec<usize> = Vec::new();
    let mut i: usize = 0;
    while i < n
        invariant
            i <= n,
            t.wf(),
            t.shape() == dims,
            n == scales@.len(),
            n == dims.len(),
            forall|j: int| 0 <= j < n ==> scales@[j] >= 1,
            forall|j: int|
                0 <= j < n ==> (dims[j] as int) * (scales@[j] as int) <= usize::MAX,
            target == resized_shape(dims, scales@),
            sdims@ == target.subrange(0, i as int),
        decreases n - i,
    {
        let d = t.dim_at(i);
        let v = d * scales[i];
        sdims.push(v);
        proof {
            assert(sdims@ =~= target.subrange(0, i + 1));
        }
        i = i + 1;
    }
    proof {
        assert(sdims@ =~= target);
    }
    let vol = match checked_volume(sdims.as_slice()) {
        Some(v) => v,
        None => {
            proof {
                assert(false);
            }
            return Err(TensorError::DimError);
        },
    };
    let mut out: Vec<T> = Vec::new();
    let mut k: usize = 0;
    while k < vol
        invariant
            k <= vol,
            t.wf(),
            t.shape() == dims,
            n == scales@.len(),
            n == dims.len(),
            forall|j: int| 0 <= j < n ==> scales@[j] >= 1,
            target == resized_shape(dims, scales@),
            sdims@ == target,
            vol == shape_volume(target),
            out@.len() == k,
            forall|p: int|
                0 <= p < k ==> out@[p] == t.data()[row_major_index(
                    dims,
                    resize_source(coords_of(target, p), scales@),
                )],
        decreases vol - k,
    {
        proof {
            lemma_volume_pos_all_positive(target);
            lemma_coords_of_inverse(target, k as int);
        }
        let c = coords_from_index(sdims.as_slice(), k);
        let ghost src = resize_source(coords_of(target, k as int), scales@);
        let mut sc: Vec<usize> = Vec::new();
        let mut j: usize = 0;
        while j < n
            invariant
                j <= n,
                t.wf(),
                t.shape() == dims,
                n == scales@.len(),
                n == dims.len(),
                forall|jj: int| 0 <= jj < n ==> scales@[jj] >= 1,
                target == resized_shape(dims, scales@),
                c@ == coords_of(target, k as int),
                valid_index(target, c@),
                src == resize_source(c@, scales@),
                sc@ == src.subrange(0, j as int),
            decreases n - j,
        {
            proof {
                assert(c@[j as int] < target[j as int]);
                assert(target[j as int] == (dims[j as int] * scales@[j as int]) as usize);
                assert((c@[j as int] as int) / (scales@[j as int] as int) < dims[j as int]) by {
                    vstd::arithmetic::div_mod::lemma_multiply_divide_lt(
                        c@[j as int] as int,
                        scales@[j as int] as int,
                        dims[j as int] as int,
                    );
                }
                vstd::arithmetic::div_mod::lemma_div_pos_is_pos(
                    c@[j as int] as int,
                    scales@[j as int] as int,
                );
            }
            sc.push(c[j] / scales[j]);
            proof {
                assert(sc@ =~= src.subrange(0, j + 1));
            }
            j = j + 1;
        }
        proof {
            assert(sc@ =~= src);
            assert forall|jj: int| 0 <= jj < dims.len() implies src[jj] < dims[jj] by {
                assert(c@[jj] < target[jj]);
                assert(target[jj] == (dims[jj] * scales@[jj]) as usize);
                assert((c@[jj] as int) / (scales@[jj] as int) < dims[jj]) by {
                    vstd::arithmetic::div_mod::lemma_multiply_divide_lt(
                        c@[jj] as int,
                        scales@[jj] as int,
                        dims[jj] as int,
                    );
                }
                vstd::arithmetic::div_mod::lemma_div_pos_is_pos(
                    c@[jj] as int,
                    scales@[jj] as int,
                );
            }
            assert(valid_index(dims, src));
        }
        let v = t.get(sc.as_slice());
        out.push(v);
        k = k + 1;
    }
    Ok(Tensor { inner: out, dims: sdims })
}

/// The shape after intercalation: the chosen axis stretched so that
/// one filler sits between every two neighbours.
pub open spec fn intercalated_shape(dims: Seq<usize>, stride: usize, axis: int) -> Seq<usize> {
    Seq::new(
        dims.len(),
        |i: int|
            if i == axis {
                ((dims[i] - 1) * stride + 1) as usize
            } else {
                dims[i]
            },
    )
}

/// Inserts a filler value between the elements of one axis, spaced by
/// the stride: positions on the stride grid keep the original
/// elements, every other position holds the filler.
pub fn intercalate_values<T: Copy>(
    t: &Tensor<T>,
    value: T,
    stride: usize,
    axis: usize,
) -> (r: Result<Tensor<T>, TensorError>)
    requires
        t.wf(),
        stride >= 1,
        axis < t.shape().len(),
        t.shape()[axis as int] >= 1,
        (t.shape()[axis as int] - 1) * stride + 1 <= usize::MAX,
        shape_volume(intercalated_shape(t.shape(), stride, axis as int)) <= usize::MAX,
    ensures
        match r {
            Ok(o) => {
                &&& o.wf()
                &&& o.shape() == intercalated_shape(t.shape(), stride, axis as int)
                &&& forall|k: int|
                    #![trigger o.data()[k]]
                    0 <= k < o.data().len() ==> {
                        let c = coords_of(o.shape(), k);
                        o.data()[k] == if c[axis as int] as int % (stride as int) == 0 {
                            t.at(c.update(axis as int, ((c[axis as int] as int) / (stride as int)) as usize))
                        } else {
                            value
                        }
                    }
            },
            Err(_) => false,
        },
{
    let ghost dims = t.shape();
    let ghost target = intercalated_shape(dims, stride, axis as int);
    let n = t.dims_len();
    let mut sdims: Vec<usize> = Vec::new();
    let mut i: usize = 0;
    while i < n
        invariant
            i <= n,
            t.wf(),
            t.shape() == dims,
            n == dims.len(),
            stride >= 1,
            axis < n,
            dims[axis as int] >= 1,
            (dims[axis as int] - 1) * stride + 1 <= usize::MAX,
            target == intercalated_shape(dims, stride, axis as int),
            sdims@ == target.subrange(0, i as int),
        decreases n - i,
    {
        let d = t.dim_at(i);
        let v: usize = if i == axis {
            (d - 1) * stride + 1
        } else {
            d
        };
        sdims.push(v);
        proof {
            assert(sdims@ =~= target.subrange(0, i + 1));
        }
        i = i + 1;
    }
    proof {
        assert(sdims@ =~= target);
    }
    let vol = match checked_volume(sdims.as_slice()) {
        Some(v) => v,
        None => {
            proof {
                assert(false);
            }
            return Err(TensorError::DimError);
        },
    };
    let mut out: Vec<T> = Vec::new();
    let mut k: usize = 0;
    while k < vol
        invariant
            k <= vol,
            t.wf(),
            t.shape() == dims,
            n == dims.len(),
            stride >= 1,
            axis < n,
            dims[axis as int] >= 1,
            target == intercalated_shape(dims, stride, axis as int),
            sdims@ == target,
            vol == shape_volume(target),
            out@.len() == k,
            forall|p: int|
                #![trigger out@[p]]
                0 <= p < k ==> {
                    let c = coords_of(target, p);
                    out@[p] == if c[axis as int] as int % (stride as int) == 0 {
                        t.data()[row_major_index(
                            dims,
                            c.update(
                                axis as int,
                                ((c[axis as int] as int) / (stride as int)) as usize,
                            ),
                        )]
                    } else {
                        value
                    }
                },
        decreases vol - k,
    {
        proof {
            lemma_volume_pos_all_positive(target);
            lemma_coords_of_inverse(target, k as int);
        }
        let c = coords_from_index(sdims.as_slice(), k);
        let ca = c[axis];
        if ca % stride == 0 {
            let ghost src = coords_of(target, k as int).update(
                axis as int,
                ((ca as int) / (stride as int)) as usize,
            );
            let mut sc: Vec<usize> = Vec::new();
            let mut j: usize = 0;
            while j < n
                invariant
                    j <= n,
                    t.wf(),
                    t.shape() == dims,
                    n == dims.len(),
                    stride >= 1,
                    axis < n,
                    dims[axis as int] >= 1,
                    target == intercalated_shape(dims, stride, axis as int),
                    c@ == coords_of(target, k as int),
                    valid_index(target, c@),
                    ca == c@[axis as int],
                    src == c@.update(axis as int, ((ca as int) / (stride as int)) as usize),
                    sc@ == src.subrange(0, j as int),
                decreases n - j,
            {
                let v: usize = if j == axis {
                    ca / stride
                } else {
                    c[j]
                };
                sc.push(v);
                proof {
                    assert(sc@ =~= src.subrange(0, j + 1));
                }
                j = j + 1;
            }
            proof {
                assert(sc@ =~= src);
                assert forall|jj: int| 0 <= jj < dims.len() implies src[jj] < dims[jj] by {
                    assert(c@[jj] < target[jj]);
                    if jj == axis {
                        assert(target[jj] == ((dims[jj] - 1) * stride + 1) as usize);
                        assert((ca as int) / (stride as int) < dims[jj]) by {
                            assert((ca as int) <= (dims[jj] - 1) * (stride as int))
                                by (nonlinear_arith)
                                requires
                                    (ca as int) < (dims[jj] - 1) * (stride as int) + 1,
                            ;
                            vstd::arithmetic::div_mod::lemma_div_is_ordered(
                                ca as int,
                                (dims[jj] - 1) * (stride as int),
                                stride as int,
                            );
                            assert(((dims[jj] - 1) * (stride as int)) / (stride as int) == dims[jj]
                                - 1) by {
                                vstd::arithmetic::div_mod::lemma_fundamental_div_mod_converse(
                                    (dims[jj] - 1) * (stride as int),
                                    stride as int,
                                    dims[jj] - 1,
                                    0,
                                );
                            }
                        }
                        vstd::arithmetic::div_mod::lemma_div_pos_is_pos(
                            ca as int,
                            stride as int,
                        );
                    }
                }
                assert(valid_index(dims, src));
            }
            let v = t.get(sc.as_slice());
            out.push(v);
        } else {
            out.push(value);
        }
        k = k + 1;
    }
    Ok(Tensor { inner: out, dims: sdims })
}

/// The shape of a padded image: channels kept, both spatial axes
/// grown by the padding on each side.
pub open spec fn padded_shape(dims: Seq<usize>, p0: usize, p1: usize) -> Seq<usize> {
    seq![dims[0], (dims[1] + 2 * p0) as usize, (dims[2] + 2 * p1) as usize]
}

/// Pads the two spatial axes of a rank-three image tensor with the
/// fill value on every side.
pub fn pad<T: Copy>(t: &Tensor<T>, padding: (usize, usize), fill: T) -> (r: Result<
    Tensor<T>,
    TensorError,
>)
    requires
        t.wf(),
        t.shape().len() == 3,
        t.shape()[1] + 2 * padding.0 <= usize::MAX,
        t.shape()[2] + 2 * padding.1 <= usize::MAX,
        shape_volume(padded_shape(t.shape(), padding.0, padding.1)) <= usize::MAX,
    ensures
        match r {
            Ok(o) => {
                &&& o.wf()
                &&& o.shape() == padded_shape(t.shape(), padding.0, padding.1)
                &&& forall|k: int|
                    #![trigger o.data()[k]]
                    0 <= k < o.data().len() ==> {
                        let c = coords_of(o.shape(), k);
                        o.data()[k] == if padding.0 <= c[1] < padding.0 + t.shape()[1]
                            && padding.1 <= c[2] < padding.1 + t.shape()[2] {
                            t.at(
                                seq![
                                    c[0],
                                    (c[1] - padding.0) as usize,
                                    (c[2] - padding.1) as usize,
                                ],
                            )
                        } else {
                            fill
                        }
                    }
            },
            Err(_) => false,
        },
{
    let ghost dims = t.shape();
    let p0 = padding.0;
    let p1 = padding.1;
    let ghost target = padded_shape(dims, p0, p1);
    let mut sdims: Vec<usize> = Vec::new();
    sdims.push(t.dim_at(0));
    sdims.push(t.dim_at(1) + 2 * p0);
    sdims.push(t.dim_at(2) + 2 * p1);
    proof {
        assert(sdims@ =~= target);
    }
    let vol = match checked_volume(sdims.as_slice()) {
        Some(v) => v,
        None => {
            proof {
                assert(false);
            }
            return Err(TensorError::DimError);
        },
    };
    let mut out: Vec<T> = Vec::new();
    let mut k: usize = 0;
    while k < vol
        invariant
            k <= vol,
            t.wf(),
            t.shape() == dims,
            dims.len() == 3,
            p0 == padding.0,
            p1 == padding.1,
            target == padded_shape(dims, p0, p1),
            dims[1] + 2 * p0 <= usize::MAX,
            dims[2] + 2 * p1 <= usize::MAX,
            sdims@ == target,
            vol == shape_volume(target),
            out@.len() == k,
            forall|p: int|
                #![trigger out@[p]]
                0 <= p < k ==> {
                    let c = coords_of(target, p);
                    out@[p] == if p0 <= c[1] < p0 + dims[1] && p1 <= c[2] < p1 + dims[2] {
                        t.data()[row_major_index(
                            dims,
                            seq![c[0], (c[1] - p0) as usize, (c[2] - p1) as usize],
                        )]
                    } else {
                        fill
                    }
                },
        decreases vol - k,
    {
        proof {
            lemma_volume_pos_all_positive(target);
            lemma_coords_of_inverse(target, k as int);
        }
        let c = coords_from_index(sdims.as_slice(), k);
        let c1 = c[1];
        let c2 = c[2];
        let inside = p0 <= c1 && c1 < p0 + t.dim_at(1) && p1 <= c2 && c2 < p1 + t.dim_at(2);
        if inside {
            let mut sc: Vec<usize> = Vec::new();
            sc.push(c[0]);
            sc.push(c1 - p0);
            sc.push(c2 - p1);
            let ghost src = seq![
                coords_of(target, k as int)[0],
                (coords_of(target, k as int)[1] - p0) as usize,
                (coords_of(target, k as int)[2] - p1) as usize,
            ];
            proof {
                assert(sc@ =~= src);
                assert(valid_index(dims, src));
            }
            let v = t.get(sc.as_slice());
            out.push(v);
        } else {
            out.push(fill);
        }
        k = k + 1;
    }
    Ok(Tensor { inner: out, dims: sdims })
}

} // verus!
