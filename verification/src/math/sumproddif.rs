//! Sums, products, cumulative scans and first differences over the
//! flattened elements of an array, plus the data-parallel sum and product.
//!
//! `sum` and `prod` fold from the identity, so they are defined — and return
//! the identity — on an empty array; the parallel variants seed from the
//! first element and therefore need a non-empty one. The cumulative scans
//! and the first difference always produce a one-dimensional array in the
//! input's row-major element order.

use vstd::prelude::*;
use crate::arrays::{NdArray, arr_elems, arr_shape, elems, from_vec};
use crate::parallel::{par_prod, par_sum, range_prods_fit, range_sums_fit};
use crate::seq_ops::{
    in_i64, lemma_seq_prod_take_succ, lemma_seq_sum_take_succ, lemma_take_all, prod_prefixes_fit,
    seq_prod, seq_sum, sum_prefixes_fit,
};

verus! {

/// The sum of all elements, folded left to right from `0`; `0` on an empty
/// array.
pub fn sum(arr: &NdArray) -> (r: i64)
    requires
        sum_prefixes_fit(arr_elems(arr)),
    ensures
        r == seq_sum(arr_elems(arr)),
{
    let v = elems(arr);
    let mut acc: i64 = 0;
    let mut i: usize = 0;
    proof {
        assert(v@.take(0) =~= Seq::<i64>::empty());
    }
    while i < v.len()
        invariant
            0 <= i <= v@.len(),
            v@ == arr_elems(arr),
            sum_prefixes_fit(v@),
            acc == seq_sum(v@.take(i as int)),
        decreases v@.len() - i,
    {
        proof {
            lemma_seq_sum_take_succ(v@, i as int);
            assert(in_i64(seq_sum(v@.take(i as int + 1))));
        }
        acc = acc + v[i];
        i = i + 1;
    }
    proof {
        lemma_take_all(v@);
    }
    acc
}

/// The product of all elements, folded left to right from `1`; `1` on an
/// empty array.
pub fn prod(arr: &NdArray) -> (r: i64)
    requires
        prod_prefixes_fit(arr_elems(arr)),
    ensures
        r == seq_prod(arr_elems(arr)),
{
    let v = elems(arr);
    let mut acc: i64 = 1;
    let mut i: usize = 0;
    proof {
        assert(v@.take(0) =~= Seq::<i64>::empty());
    }
    while i < v.len()
        invariant
            0 <= i <= v@.len(),
            v@ == arr_elems(arr),
            prod_prefixes_fit(v@),
            acc == seq_prod(v@.take(i as int)),
        decreases v@.len() - i,
    {
        proof {
            lemma_seq_prod_take_succ(v@, i as int);
            assert(in_i64(seq_prod(v@.take(i as int + 1))));
        }
        acc = acc * v[i];
        i = i + 1;
    }
    proof {
        lemma_take_all(v@);
    }
    acc
}

/// The cumulative sum: a one-dimensional array whose `i`-th element is the
/// sum of the first `i + 1` elements in row-major order.
pub fn cumsum(arr: &NdArray) -> (r: NdArray)
    requires
        sum_prefixes_fit(arr_elems(arr)),
    ensures
        arr_elems(&r).len() == arr_elems(arr).len(),
        arr_shape(&r) == seq![arr_elems(arr).len() as usize],
        forall|i: int|
            0 <= i < arr_elems(arr).len() ==> arr_elems(&r)[i] == seq_sum(
                arr_elems(arr).take(i + 1),
            ),
{
    let v = elems(arr);
    let mut out: Vec<i64> = Vec::new();
    let mut acc: i64 = 0;
    let mut i: usize = 0;
    proof {
        assert(v@.take(0) =~= Seq::<i64>::empty());
    }
    while i < v.len()
        invariant
            0 <= i <= v@.len(),
            v@ == arr_elems(arr),
            sum_prefixes_fit(v@),
            acc == seq_sum(v@.take(i as int)),
            out@.len() == i,
            forall|k: int| 0 <= k < i ==> out@[k] == seq_sum(v@.take(k + 1)),
        decreases v@.len() - i,
    {
        proof {
            lemma_seq_sum_take_succ(v@, i as int);
            assert(in_i64(seq_sum(v@.take(i as int + 1))));
        }
        acc = acc + v[i];
        out.push(acc);
        i = i + 1;
    }
    from_vec(out)
}

/// The cumulative product: a one-dimensional array whose `i`-th element is
/// the product of the first `i + 1` elements in row-major order.
pub fn cumprod(arr: &NdArray) -> (r: NdArray)
    requires
        prod_prefixes_fit(arr_elems(arr)),
    ensures
        arr_elems(&r).len() == arr_elems(arr).len(),
        arr_shape(&r) == seq![arr_elems(arr).len() as usize],
        forall|i: int|
            0 <= i < arr_elems(arr).len() ==> arr_elems(&r)[i] == seq_prod(
                arr_elems(arr).take(i + 1),
            ),
{
    let v = elems(arr);
    let mut out: Vec<i64> = Vec::new();
    let mut acc: i64 = 1;
    let mut i: usize = 0;
    proof {
        assert(v@.take(0) =~= Seq::<i64>::empty());
    }
    while i < v.len()
        invariant
            0 <= i <= v@.len(),
            v@ == arr_elems(arr),
            prod_prefixes_fit(v@),
            acc == seq_prod(v@.take(i as int)),
            out@.len() == i,
            forall|k: int| 0 <= k < i ==> out@[k] == seq_prod(v@.take(k + 1)),
        decreases v@.len() - i,
    {
        proof {
            lemma_seq_prod_take_succ(v@, i as int);
            assert(in_i64(seq_prod(v@.take(i as int + 1))));
        }
        acc = acc * v[i];
        out.push(acc);
        i = i + 1;
    }
    from_vec(out)
}

/// Every difference of consecutive elements of `s` fits in an `i64`.
pub open spec fn diffs_fit(s: Seq<i64>) -> bool {
    forall|i: int| 0 <= i < s.len() - 1 ==> in_i64(#[trigger] s[i + 1] - s[i])
}

/// The first difference: a one-dimensional array of the differences of
/// consecutive elements in row-major order. An array of fewer than two
/// elements yields an empty result.
pub fn ediff1d(arr: &NdArray) -> (r: NdArray)
    requires
        diffs_fit(arr_elems(arr)),
    ensures
        arr_elems(&r).len() == if arr_elems(arr).len() == 0 {
            0int
        } else {
            arr_elems(arr).len() - 1
        },
        arr_shape(&r) == seq![arr_elems(&r).len() as usize],
        forall|i: int|
            0 <= i < arr_elems(arr).len() - 1 ==> arr_elems(&r)[i] == arr_elems(arr)[i + 1]
                - arr_elems(arr)[i],
{
    let v = elems(arr);
    let mut out: Vec<i64> = Vec::new();
    if v.len() < 2 {
        return from_vec(out);
    }
    let mut i: usize = 1;
    while i < v.len()
        invariant
            1 <= i <= v@.len(),
            v@ == arr_elems(arr),
            diffs_fit(v@),
            out@.len() == i - 1,
            forall|k: int| 0 <= k < i - 1 ==> out@[k] == v@[k + 1] - v@[k],
        decreases v@.len() - i,
    {
        proof {
            assert(in_i64(v@[i as int - 1 + 1] - v@[i as int - 1]));
        }
        out.push(v[i] - v[i - 1]);
        i = i + 1;
    }
    from_vec(out)
}

/// The last element of a cumulative sum is the total sum: any sequence `c`
/// related to `s` as [`cumsum`]'s contract relates its result to its input
/// ends with [`seq_sum`] of `s`.
pub proof fn lemma_cumsum_last_is_sum(s: Seq<i64>, c: Seq<i64>)
    requires
        s.len() > 0,
        c.len() == s.len(),
        forall|i: int| 0 <= i < s.len() ==> c[i] == seq_sum(#[trigger] s.take(i + 1)),
    ensures
        c[c.len() - 1] == seq_sum(s),
{
    lemma_take_all(s);
    assert(c[s.len() - 1] == seq_sum(s.take((s.len() - 1) + 1)));
    assert(s.take((s.len() - 1) + 1) == s.take(s.len() as int));
}

/// The sum of a non-empty array, computed by a data-parallel reduction.
/// Integer addition reassociates exactly, so it agrees with [`sum`].
pub fn sum_rayon(arr: &NdArray) -> (r: i64)
    requires
        arr_elems(arr).len() > 0,
        range_sums_fit(arr_elems(arr)),
    ensures
        r == seq_sum(arr_elems(arr)),
{
    let v = elems(arr);
    proof {
        assert(in_i64(seq_sum(v@.subrange(0, v@.len() as int))));
        assert(v@.subrange(0, v@.len() as int) =~= v@);
    }
    match par_sum(&v) {
        Some(s) => s,
        None => {
            proof {
                assert(false);
            }
            0
        },
    }
}

/// The product of a non-empty array, computed by a data-parallel reduction.
/// Integer multiplication reassociates exactly, so it agrees with [`prod`].
pub fn prod_rayon(arr: &NdArray) -> (r: i64)
    requires
        arr_elems(arr).len() > 0,
        range_prods_fit(arr_elems(arr)),
    ensures
        r == seq_prod(arr_elems(arr)),
{
    let v = elems(arr);
    proof {
        assert(in_i64(seq_prod(v@.subrange(0, v@.len() as int))));
        assert(v@.subrange(0, v@.len() as int) =~= v@);
    }
    match par_prod(&v) {
        Some(p) => p,
        None => {
            proof {
                assert(false);
            }
            0
        },
    }
}

} // verus!
