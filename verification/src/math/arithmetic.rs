//! Element-wise arithmetic maps: reciprocal, numerical positive / absolute
//! value / negation, element-wise powers and element-wise remainders. Each
//! produces a new array of the same shape.

use vstd::prelude::*;
use vstd::arithmetic::div_mod::{
    lemma_div_pos_is_pos, lemma_div_nonincreasing, lemma_div_is_ordered_by_denominator,
};
use vstd::math::abs;
use crate::arrays::{NdArray, arr_elems, arr_shape, elems, rebuild_like};
use crate::seq_ops::{div_trunc, in_i64, pow_int, rem_trunc};

verus! {

/// Truncating division fits in an `i64` whenever the dividend and divisor
/// do, apart from the lone overflowing case `i64::MIN / -1`.
proof fn lemma_div_trunc_fits(x: int, d: int)
    requires
        in_i64(x),
        in_i64(d),
        d != 0,
        !(x == i64::MIN && d == -1),
    ensures
        in_i64(div_trunc(x, d)),
{
    if x == 0 {
    } else if x > 0 && d > 0 {
        lemma_div_pos_is_pos(x, d);
        lemma_div_nonincreasing(x, d);
    } else if x < 0 && d < 0 {
        let nx = x * -1;
        let nd = d * -1;
        lemma_div_pos_is_pos(nx, nd);
        if d == -1 {
            assert(x != i64::MIN);
            lemma_div_nonincreasing(nx, nd);
        } else {
            lemma_div_is_ordered_by_denominator(nx, 2, nd);
            assert(nx / 2 <= i64::MAX) by (nonlinear_arith)
                requires
                    nx <= i64::MAX + 1,
            ;
        }
    } else if x < 0 {
        let nx = x * -1;
        lemma_div_pos_is_pos(nx, d);
        if d == 1 {
            lemma_div_nonincreasing(nx, d);
        } else {
            lemma_div_is_ordered_by_denominator(nx, 2, d);
            assert(nx / 2 <= i64::MAX) by (nonlinear_arith)
                requires
                    nx <= i64::MAX + 1,
            ;
        }
    } else {
        let nd = d * -1;
        lemma_div_pos_is_pos(x, nd);
        lemma_div_nonincreasing(x, nd);
    }
}

/// The remainder of truncating division always fits in an `i64`: its
/// magnitude is below the divisor's.
proof fn lemma_rem_trunc_fits(x: int, d: int)
    requires
        in_i64(x),
        in_i64(d),
        d != 0,
    ensures
        in_i64(rem_trunc(x, d)),
{
    if x == 0 {
    } else if x > 0 && d > 0 {
        assert(0 <= x % d < d) by (nonlinear_arith)
            requires
                d > 0,
        ;
    } else if x < 0 && d < 0 {
        assert(0 <= (x * -1) % (d * -1) < d * -1) by (nonlinear_arith)
            requires
                d < 0,
        ;
    } else if x < 0 {
        assert(0 <= (x * -1) % d < d) by (nonlinear_arith)
            requires
                d > 0,
        ;
    } else {
        assert(0 <= x % (d * -1) < d * -1) by (nonlinear_arith)
            requires
                d < 0,
        ;
    }
}

/// Quotient of truncating division, the semantics of `/` on machine
/// integers: sign of the result follows the usual rule, magnitude rounds
/// toward zero.
pub(crate) fn i64_div_trunc(a: i64, b: i64) -> (r: i64)
    requires
        b != 0,
        !(a == i64::MIN && b == -1),
    ensures
        r == div_trunc(a as int, b as int),
{
    proof {
        lemma_div_trunc_fits(a as int, b as int);
    }
    match a.checked_div(b) {
        Some(q) => q,
        None => {
            proof {
                assert(false);
            }
            0
        },
    }
}

/// Remainder of truncating division, the semantics of `%` on machine
/// integers: the sign of the result follows the dividend.
pub(crate) fn i64_rem_trunc(a: i64, b: i64) -> (r: i64)
    requires
        b != 0,
        !(a == i64::MIN && b == -1),
    ensures
        r == rem_trunc(a as int, b as int),
{
    proof {
        lemma_rem_trunc_fits(a as int, b as int);
    }
    match a.checked_rem(b) {
        Some(q) => q,
        None => {
            proof {
                assert(false);
            }
            0
        },
    }
}

/// Element-wise reciprocal `1 / x` under integer division: `1` at `1`, `-1`
/// at `-1`, `0` at every element of larger magnitude. Every element must be
/// non-zero.
pub fn reciprocal(arr: &NdArray) -> (r: NdArray)
    requires
        forall|i: int| 0 <= i < arr_elems(arr).len() ==> arr_elems(arr)[i] != 0,
    ensures
        arr_shape(&r) == arr_shape(arr),
        arr_elems(&r).len() == arr_elems(arr).len(),
        forall|i: int|
            0 <= i < arr_elems(arr).len() ==> arr_elems(&r)[i] == div_trunc(
                1,
                arr_elems(arr)[i] as int,
            ),
{
    let v = elems(arr);
    let mut out: Vec<i64> = Vec::new();
    let mut i: usize = 0;
    while i < v.len()
        invariant
            0 <= i <= v@.len(),
            v@ == arr_elems(arr),
            out@.len() == i,
            forall|k: int| 0 <= k < v@.len() ==> v@[k] != 0,
            forall|k: int| 0 <= k < i ==> out@[k] == div_trunc(1, v@[k] as int),
        decreases v@.len() - i,
    {
        out.push(i64_div_trunc(1, v[i]));
        i = i + 1;
    }
    rebuild_like(arr, out)
}

/// Element-wise numerical positive: the absolute value of each element.
pub fn positive(arr: &NdArray) -> (r: NdArray)
    requires
        forall|i: int| 0 <= i < arr_elems(arr).len() ==> arr_elems(arr)[i] != i64::MIN,
    ensures
        arr_shape(&r) == arr_shape(arr),
        arr_elems(&r).len() == arr_elems(arr).len(),
        forall|i: int|
            0 <= i < arr_elems(arr).len() ==> arr_elems(&r)[i] == abs(arr_elems(arr)[i] as int),
{
    let v = elems(arr);
    let mut out: Vec<i64> = Vec::new();
    let mut i: usize = 0;
    while i < v.len()
        invariant
            0 <= i <= v@.len(),
            v@ == arr_elems(arr),
            out@.len() == i,
            forall|k: int| 0 <= k < v@.len() ==> v@[k] != i64::MIN,
            forall|k: int| 0 <= k < i ==> out@[k] == abs(v@[k] as int),
        decreases v@.len() - i,
    {
        if v[i] < 0 {
            out.push(-v[i]);
        } else {
            out.push(v[i]);
        }
        i = i + 1;
    }
    rebuild_like(arr, out)
}

/// Element-wise absolute value; the same operation as [`positive`].
pub fn absolute(arr: &NdArray) -> (r: NdArray)
    requires
        forall|i: int| 0 <= i < arr_elems(arr).len() ==> arr_elems(arr)[i] != i64::MIN,
    ensures
        arr_shape(&r) == arr_shape(arr),
        arr_elems(&r).len() == arr_elems(arr).len(),
        forall|i: int|
            0 <= i < arr_elems(arr).len() ==> arr_elems(&r)[i] == abs(arr_elems(arr)[i] as int),
{
    positive(arr)
}

/// Element-wise negation.
pub fn negative(arr: &NdArray) -> (r: NdArray)
    requires
        forall|i: int| 0 <= i < arr_elems(arr).len() ==> arr_elems(arr)[i] != i64::MIN,
    ensures
        arr_shape(&r) == arr_shape(arr),
        arr_elems(&r).len() == arr_elems(arr).len(),
        forall|i: int|
            0 <= i < arr_elems(arr).len() ==> arr_elems(&r)[i] == -(arr_elems(arr)[i] as int),
{
    let v = elems(arr);
    let mut out: Vec<i64> = Vec::new();
    let mut i: usize = 0;
    while i < v.len()
        invariant
            0 <= i <= v@.len(),
            v@ == arr_elems(arr),
            out@.len() == i,
            forall|k: int| 0 <= k < v@.len() ==> v@[k] != i64::MIN,
            forall|k: int| 0 <= k < i ==> out@[k] == -(v@[k] as int),
        decreases v@.len() - i,
    {
        out.push(-v[i]);
        i = i + 1;
    }
    rebuild_like(arr, out)
}

/// `b` raised to the `e`-th power by repeated multiplication. The caller
/// guarantees that every intermediate power fits.
pub(crate) fn i64_pow(b: i64, e: i64) -> (r: i64)
    requires
        e >= 0,
        forall|k: nat| k <= e ==> in_i64(#[trigger] pow_int(b as int, k)),
    ensures
        r == pow_int(b as int, e as nat),
{
    let mut acc: i64 = 1;
    let mut k: i64 = 0;
    while k < e
        invariant
            0 <= k <= e,
            acc == pow_int(b as int, k as nat),
            forall|j: nat| j <= e ==> in_i64(#[trigger] pow_int(b as int, j)),
        decreases e - k,
    {
        proof {
            assert(pow_int(b as int, (k + 1) as nat) == pow_int(b as int, k as nat) * b);
            assert(in_i64(pow_int(b as int, (k + 1) as nat)));
        }
        acc = acc * b;
        k = k + 1;
    }
    acc
}

/// Element-wise power: each element of `arr` raised to the matching element
/// of `arr_pow`. Exponents are non-negative and every intermediate power
/// must fit.
pub fn power(arr: &NdArray, arr_pow: &NdArray) -> (r: NdArray)
    requires
        arr_shape(arr_pow) == arr_shape(arr),
        forall|i: int| 0 <= i < arr_elems(arr_pow).len() ==> arr_elems(arr_pow)[i] >= 0,
        forall|i: int, k: nat|
            0 <= i < arr_elems(arr).len() && i < arr_elems(arr_pow).len() && k <= arr_elems(
                arr_pow,
            )[i] ==> in_i64(#[trigger] pow_int(arr_elems(arr)[i] as int, k)),
    ensures
        arr_shape(&r) == arr_shape(arr),
        arr_elems(&r).len() == arr_elems(arr).len(),
        forall|i: int|
            0 <= i < arr_elems(arr).len() ==> arr_elems(&r)[i] == pow_int(
                arr_elems(arr)[i] as int,
                arr_elems(arr_pow)[i] as nat,
            ),
{
    let v = elems(arr);
    let p = elems(arr_pow);
    let mut out: Vec<i64> = Vec::new();
    let mut i: usize = 0;
    while i < v.len()
        invariant
            0 <= i <= v@.len(),
            v@ == arr_elems(arr),
            p@ == arr_elems(arr_pow),
            v@.len() == p@.len(),
            out@.len() == i,
            forall|k: int| 0 <= k < p@.len() ==> p@[k] >= 0,
            forall|k: int, j: nat|
                0 <= k < v@.len() && j <= p@[k] ==> in_i64(#[trigger] pow_int(v@[k] as int, j)),
            forall|k: int|
                0 <= k < i ==> out@[k] == pow_int(v@[k] as int, p@[k] as nat),
        decreases v@.len() - i,
    {
        out.push(i64_pow(v[i], p[i]));
        i = i + 1;
    }
    rebuild_like(arr, out)
}

/// Element-wise remainder `a % b` with truncating-division semantics: the
/// sign of each result follows the dividend. Divisors must be non-zero and
/// the lone overflowing pair `(i64::MIN, -1)` is excluded.
pub fn remainder(arr: &NdArray, arr2: &NdArray) -> (r: NdArray)
    requires
        arr_shape(arr2) == arr_shape(arr),
        forall|i: int| 0 <= i < arr_elems(arr2).len() ==> arr_elems(arr2)[i] != 0,
        forall|i: int|
            0 <= i < arr_elems(arr).len() && i < arr_elems(arr2).len() ==> !(arr_elems(arr)[i]
                == i64::MIN && arr_elems(arr2)[i] == -1),
    ensures
        arr_shape(&r) == arr_shape(arr),
        arr_elems(&r).len() == arr_elems(arr).len(),
        forall|i: int|
            0 <= i < arr_elems(arr).len() ==> arr_elems(&r)[i] == rem_trunc(
                arr_elems(arr)[i] as int,
                arr_elems(arr2)[i] as int,
            ),
{
    let v = elems(arr);
    let d = elems(arr2);
    let mut out: Vec<i64> = Vec::new();
    let mut i: usize = 0;
    while i < v.len()
        invariant
            0 <= i <= v@.len(),
            v@ == arr_elems(arr),
            d@ == arr_elems(arr2),
            v@.len() == d@.len(),
            out@.len() == i,
            forall|k: int| 0 <= k < d@.len() ==> d@[k] != 0,
            forall|k: int| 0 <= k < v@.len() ==> !(v@[k] == i64::MIN && d@[k] == -1),
            forall|k: int| 0 <= k < i ==> out@[k] == rem_trunc(v@[k] as int, d@[k] as int),
        decreases v@.len() - i,
    {
        out.push(i64_rem_trunc(v[i], d[i]));
        i = i + 1;
    }
    rebuild_like(arr, out)
}

} // verus!
