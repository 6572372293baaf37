//! The trusted boundary around the external n-dimensional array storage.
//!
//! `NdArray` owns a dynamic-rank `ndarray` array of `i64` elements. Verus
//! sees a value of it only through two names — `arr_elems`, its elements in
//! row-major order, and `arr_shape`, its per-axis extents — and through the
//! trusted accessors below, which relate the real calls to those names.
//! Everything computed from the elements is verified elsewhere in the crate.
//!
//! The storage layer accepts a shape exactly when the product of its
//! non-zero extents stays within `isize::MAX` and the full product of its
//! extents is the element count; every constructed array upholds both.

use vstd::prelude::*;
use crate::seq_ops::{
    lemma_nonzero_product_pos, lemma_nonzero_product_take_le, lemma_nonzero_product_take_succ,
    lemma_shape_product_no_zero, lemma_shape_product_with_zero, nonzero_product, shape_product,
};

verus! {

/// An n-dimensional array of `i64` elements in row-major order, backed by
/// `ndarray`'s dynamic-rank owned array.
#[verifier::external_body]
pub struct NdArray {
    inner: ndarray::ArrayD<i64>,
}

/// The elements of the array, flattened in its row-major iteration order.
pub uninterp spec fn arr_elems(a: &NdArray) -> Seq<i64>;

/// The per-axis extents of the array.
pub uninterp spec fn arr_shape(a: &NdArray) -> Seq<usize>;

/// Raised by [`from_shape_vec`] when the given shape does not describe the
/// given number of elements, or is too large for the storage layer.
#[derive(Clone, Copy, Debug, PartialEq, Eq, Structural)]
pub struct ShapeMismatch {}

/// Relies on `ndarray`'s `iter`, which yields the elements in row-major
/// order; an array's element count is the product of its shape and never
/// exceeds `isize::MAX`.
#[verifier::external_body]
pub(crate) fn elems(a: &NdArray) -> (v: Vec<i64>)
    ensures
        v@ == arr_elems(a),
        v@.len() == shape_product(arr_shape(a)),
        v@.len() <= isize::MAX,
{
    a.inner.iter().copied().collect()
}

/// Relies on `ndarray`'s `shape`, which returns the per-axis extents. An
/// array is only ever constructed after the storage layer has validated the
/// shape: the product of the extents is the element count, and the product
/// of the non-zero extents stays within `isize::MAX`.
#[verifier::external_body]
pub(crate) fn shape_dims(a: &NdArray) -> (r: Vec<usize>)
    ensures
        r@ == arr_shape(a),
        shape_product(r@) == arr_elems(a).len(),
        nonzero_product(r@) <= isize::MAX,
{
    a.inner.shape().to_vec()
}

/// Relies on `ndarray`'s `from_shape_vec`, which builds a row-major array
/// from a flat vector and succeeds exactly when the product of the
/// non-zero extents stays within `isize::MAX` and the product of all the
/// extents is the vector's length.
#[verifier::external_body]
pub(crate) fn raw_from_shape_vec(shape: &Vec<usize>, data: Vec<i64>) -> (r: NdArray)
    requires
        shape_product(shape@) == data@.len(),
        nonzero_product(shape@) <= isize::MAX,
    ensures
        arr_shape(&r) == shape@,
        arr_elems(&r) == data@,
{
    NdArray {
        inner: ndarray::ArrayD::from_shape_vec(ndarray::IxDyn(shape.as_slice()), data).unwrap(),
    }
}

/// Builds an array of the given shape from its elements in row-major order.
/// Fails exactly when the shape describes a different number of elements,
/// or its non-zero extents multiply out beyond `isize::MAX`, the storage
/// layer's limit.
pub fn from_shape_vec(shape: Vec<usize>, data: Vec<i64>) -> (r: Result<NdArray, ShapeMismatch>)
    ensures
        match r {
            Ok(a) => {
                &&& arr_shape(&a) == shape@
                &&& arr_elems(&a) == data@
                &&& shape_product(shape@) == data@.len()
                &&& nonzero_product(shape@) <= isize::MAX
            },
            Err(_) => {
                ||| shape_product(shape@) != data@.len()
                ||| nonzero_product(shape@) > isize::MAX
            },
        },
{
    let mut nonzero: usize = 1;
    let mut any_zero = false;
    let mut i: usize = 0;
    proof {
        assert(shape@.take(0) =~= Seq::<usize>::empty());
    }
    while i < shape.len()
        invariant
            0 <= i <= shape@.len(),
            nonzero == nonzero_product(shape@.take(i as int)),
            any_zero <==> exists|j: int| 0 <= j < i && shape@[j] == 0,
        decreases shape@.len() - i,
    {
        proof {
            lemma_nonzero_product_take_succ(shape@, i as int);
        }
        if shape[i] == 0 {
            any_zero = true;
        } else {
            match nonzero.checked_mul(shape[i]) {
                Some(p) => {
                    nonzero = p;
                },
                None => {
                    proof {
                        lemma_nonzero_product_take_le(shape@, i + 1);
                        lemma_nonzero_product_pos(shape@.take(i + 1));
                    }
                    return Err(ShapeMismatch {});
                },
            }
        }
        i = i + 1;
    }
    proof {
        assert(shape@.take(shape@.len() as int) =~= shape@);
    }
    if nonzero > isize::MAX as usize {
        return Err(ShapeMismatch {});
    }
    let size: usize = if any_zero {
        0
    } else {
        nonzero
    };
    proof {
        if any_zero {
            let j = choose|j: int| 0 <= j < shape@.len() && shape@[j] == 0;
            lemma_shape_product_with_zero(shape@, j);
        } else {
            lemma_shape_product_no_zero(shape@);
        }
    }
    if size == data.len() {
        Ok(raw_from_shape_vec(&shape, data))
    } else {
        Err(ShapeMismatch {})
    }
}

/// Builds a one-dimensional array holding the given elements.
pub fn from_vec(data: Vec<i64>) -> (r: NdArray)
    requires
        data@.len() <= isize::MAX,
    ensures
        arr_elems(&r) == data@,
        arr_shape(&r) == seq![data@.len() as usize],
{
    let mut shape: Vec<usize> = Vec::new();
    shape.push(data.len());
    proof {
        assert(shape@.drop_last() =~= Seq::<usize>::empty());
        assert(shape_product(Seq::<usize>::empty()) == 1);
        assert(nonzero_product(Seq::<usize>::empty()) == 1);
        assert(shape_product(shape@) == 1 * shape@.last());
        assert(shape_product(shape@) == data@.len());
        if shape@.last() == 0 {
            assert(nonzero_product(shape@) == 1);
        } else {
            assert(nonzero_product(shape@) == 1 * shape@.last());
        }
        assert(nonzero_product(shape@) <= isize::MAX);
    }
    raw_from_shape_vec(&shape, data)
}

/// The elements of the array in row-major order.
pub fn to_vec(a: &NdArray) -> (v: Vec<i64>)
    ensures
        v@ == arr_elems(a),
{
    elems(a)
}

/// The per-axis extents of the array.
pub fn shape(a: &NdArray) -> (r: Vec<usize>)
    ensures
        r@ == arr_shape(a),
{
    shape_dims(a)
}

/// Rebuilds an array with the shape of `like` from new elements of the same
/// count: the step every element-wise operation ends with.
pub(crate) fn rebuild_like(like: &NdArray, data: Vec<i64>) -> (r: NdArray)
    requires
        data@.len() == arr_elems(like).len(),
    ensures
        arr_shape(&r) == arr_shape(like),
        arr_elems(&r) == data@,
{
    let dims = shape_dims(like);
    raw_from_shape_vec(&dims, data)
}

} // verus!
