//! Miscellaneous element-wise routines — clipping, squares, signs — and the
//! discrete linear convolution of two one-dimensional sequences with a
//! selectable output window.

use vstd::prelude::*;
use crate::arrays::{NdArray, arr_elems, arr_shape, elems, from_vec, rebuild_like};
use crate::seq_ops::in_i64;

verus! {

/// Selects how much of the full convolution [`convolve`] returns.
#[derive(Clone, Copy, Debug)]
pub enum ConvolutionMode {
    Full,
    Same,
    Valid,
}

/// One term of the convolution sum: `a[k] * b[i - k]` where the second
/// index is in range, `0` otherwise.
pub open spec fn conv_term(a: Seq<i64>, b: Seq<i64>, i: int, k: int) -> int {
    if 0 <= i - k < b.len() {
        a[k] * b[i - k]
    } else {
        0
    }
}

/// The convolution terms of output index `i` whose first-factor index runs
/// from `k` to the end of `a`.
pub open spec fn conv_sum_from(a: Seq<i64>, b: Seq<i64>, i: int, k: int) -> int
    decreases a.len() - k,
{
    if k < 0 || k >= a.len() {
        0
    } else {
        conv_term(a, b, i, k) + conv_sum_from(a, b, i, k + 1)
    }
}

/// Element `i` of the full discrete convolution of `a` and `b`:
/// the sum of `a[k] * b[i - k]` over all valid index pairs.
pub open spec fn conv_at(a: Seq<i64>, b: Seq<i64>, i: int) -> int {
    conv_sum_from(a, b, i, 0)
}

/// The length of the output window: the whole convolution for `Full`, the
/// longer input's length for `Same`, and their length difference plus one
/// for `Valid`.
pub open spec fn conv_out_len(mode: ConvolutionMode, m: int, n: int) -> int {
    match mode {
        ConvolutionMode::Full => m + n - 1,
        ConvolutionMode::Same => if m >= n {
            m
        } else {
            n
        },
        ConvolutionMode::Valid => (if m >= n {
            m
        } else {
            n
        }) - (if m <= n {
            m
        } else {
            n
        }) + 1,
    }
}

/// Where the output window starts in the full convolution: the window is
/// centered.
pub open spec fn conv_start(mode: ConvolutionMode, m: int, n: int) -> int {
    ((m + n - 1) - conv_out_len(mode, m, n)) / 2
}

/// Every product of an element of `a` with an element of `b` fits in an
/// `i64`.
pub open spec fn conv_products_fit(a: Seq<i64>, b: Seq<i64>) -> bool {
    forall|k: int, j: int|
        0 <= k < a.len() && 0 <= j < b.len() ==> in_i64(#[trigger] (a[k] * b[j]))
}

/// Every partial convolution sum, accumulated from the high first-factor
/// index downward as the scan performs it, fits in an `i64`.
pub open spec fn conv_partials_fit(a: Seq<i64>, b: Seq<i64>) -> bool {
    forall|i: int, k: int|
        0 <= i < a.len() + b.len() - 1 && 0 <= k <= a.len() ==> in_i64(
            #[trigger] conv_sum_from(a, b, i, k),
        )
}

/// Terms beyond output index `i` all have a negative second index and
/// vanish.
proof fn lemma_conv_tail_zero(a: Seq<i64>, b: Seq<i64>, i: int, k: int)
    requires
        k > i,
    ensures
        conv_sum_from(a, b, i, k) == 0,
    decreases a.len() - k,
{
    if 0 <= k < a.len() {
        lemma_conv_tail_zero(a, b, i, k + 1);
    }
}

/// The centered window of `v` of the given size: element `i` of the result
/// is element `(len - size) / 2 + i` of `v`.
fn centered(v: &Vec<i64>, mode_size: usize) -> (r: Vec<i64>)
    requires
        mode_size <= v@.len(),
    ensures
        r@.len() == mode_size,
        forall|i: int|
            0 <= i < mode_size ==> r@[i] == v@[(v@.len() - mode_size) / 2 + i],
{
    let startind = (v.len() - mode_size) / 2;
    let mut out: Vec<i64> = Vec::new();
    let mut i: usize = 0;
    while i < mode_size
        invariant
            0 <= i <= mode_size <= v@.len(),
            v@.len() <= usize::MAX,
            startind == (v@.len() - mode_size) / 2,
            startind + mode_size <= v@.len(),
            out@.len() == i,
            forall|k: int| 0 <= k < i ==> out@[k] == v@[startind + k],
        decreases mode_size - i,
    {
        out.push(v[startind + i]);
        i = i + 1;
    }
    out
}

/// The discrete, linear convolution of two non-empty one-dimensional
/// arrays, trimmed to the window the mode selects: element `i` of the
/// result is element `conv_start + i` of the full convolution.
pub fn convolve(arr: &NdArray, arr2: &NdArray, mode: ConvolutionMode) -> (r: NdArray)
    requires
        arr_shape(arr).len() == 1,
        arr_shape(arr2).len() == 1,
        arr_elems(arr).len() >= 1,
        arr_elems(arr2).len() >= 1,
        arr_elems(arr).len() + arr_elems(arr2).len() - 1 <= isize::MAX,
        conv_products_fit(arr_elems(arr), arr_elems(arr2)),
        conv_partials_fit(arr_elems(arr), arr_elems(arr2)),
    ensures
        arr_elems(&r).len() == conv_out_len(
            mode,
            arr_elems(arr).len() as int,
            arr_elems(arr2).len() as int,
        ),
        arr_shape(&r) == seq![arr_elems(&r).len() as usize],
        forall|i: int|
            0 <= i < arr_elems(&r).len() ==> arr_elems(&r)[i] == conv_at(
                arr_elems(arr),
                arr_elems(arr2),
                conv_start(mode, arr_elems(arr).len() as int, arr_elems(arr2).len() as int) + i,
            ),
{
    let v = elems(arr);
    let w = elems(arr2);
    let m = v.len();
    let n = w.len();
    let out_size = m - 1 + n;
    let mut out: Vec<i64> = Vec::new();
    let mut i: usize = 0;
    while i < out_size
        invariant
            0 <= i <= out_size,
            v@ == arr_elems(arr),
            w@ == arr_elems(arr2),
            m == v@.len(),
            n == w@.len(),
            m >= 1,
            n >= 1,
            out_size == m + n - 1,
            conv_products_fit(v@, w@),
            conv_partials_fit(v@, w@),
            out@.len() == i,
            forall|k: int| 0 <= k < i ==> out@[k] == conv_at(v@, w@, k),
        decreases out_size - i,
    {
        let x = if i < m - 1 {
            i
        } else {
            m - 1
        };
        let mut acc: i64 = 0;
        let mut j: usize = x + 1;
        proof {
            if x + 1 < m {
                lemma_conv_tail_zero(v@, w@, i as int, x as int + 1);
            }
            assert(conv_sum_from(v@, w@, i as int, x as int + 1) == 0);
        }
        while j > 0
            invariant
                0 <= j <= x + 1,
                x < m,
                x <= i < out_size,
                out_size == m + n - 1,
                v@ == arr_elems(arr),
                w@ == arr_elems(arr2),
                m == v@.len(),
                n == w@.len(),
                conv_products_fit(v@, w@),
                conv_partials_fit(v@, w@),
                acc == conv_sum_from(v@, w@, i as int, j as int),
            decreases j,
        {
            let a_idx = j - 1;
            let b_idx = i - a_idx;
            proof {
                assert(in_i64(conv_sum_from(v@, w@, i as int, a_idx as int)));
                if b_idx < n {
                    assert(in_i64(v@[a_idx as int] * w@[b_idx as int]));
                }
            }
            if b_idx < n {
                acc = acc + v[a_idx] * w[b_idx];
            }
            j = j - 1;
        }
        out.push(acc);
        i = i + 1;
    }
    match mode {
        ConvolutionMode::Full => from_vec(out),
        ConvolutionMode::Same => {
            let s = if m >= n {
                m
            } else {
                n
            };
            from_vec(centered(&out, s))
        },
        ConvolutionMode::Valid => {
            let s = (if m >= n {
                m
            } else {
                n
            }) - (if m <= n {
                m
            } else {
                n
            }) + 1;
            from_vec(centered(&out, s))
        },
    }
}

/// The value of one element after clipping: raised to `lo` from below, then
/// lowered to `hi` from above. When `lo > hi` every element comes out as
/// `hi`, the effect of applying the two clamps in sequence.
pub open spec fn clip_spec(x: i64, lo: i64, hi: i64) -> i64 {
    if x < lo {
        lo
    } else if x > hi {
        hi
    } else {
        x
    }
}

/// Clip (limit) the values in an array: each element below `lo` becomes
/// `lo`, each element above `hi` becomes `hi`, and the rest pass through.
pub fn clip(arr: &NdArray, min: i64, max: i64) -> (r: NdArray)
    ensures
        arr_shape(&r) == arr_shape(arr),
        arr_elems(&r).len() == arr_elems(arr).len(),
        forall|i: int|
            0 <= i < arr_elems(arr).len() ==> arr_elems(&r)[i] == clip_spec(
                arr_elems(arr)[i],
                min,
                max,
            ),
{
    let v = elems(arr);
    let mut out: Vec<i64> = Vec::new();
    let mut i: usize = 0;
    while i < v.len()
        invariant
            0 <= i <= v@.len(),
            v@ == arr_elems(arr),
            out@.len() == i,
            forall|k: int| 0 <= k < i ==> out@[k] == clip_spec(v@[k], min, max),
        decreases v@.len() - i,
    {
        if v[i] < min {
            out.push(min);
        } else if v[i] > max {
            out.push(max);
        } else {
            out.push(v[i]);
        }
        i = i + 1;
    }
    rebuild_like(arr, out)
}

/// With ordered bounds, every clipped value lies between them, and a value
/// already between them passes through unchanged.
pub proof fn lemma_clip_bounds(x: i64, lo: i64, hi: i64)
    requires
        lo <= hi,
    ensures
        lo <= clip_spec(x, lo, hi) <= hi,
        lo <= x <= hi ==> clip_spec(x, lo, hi) == x,
{
}

/// The element-wise square of the input. Every square must fit.
pub fn square(arr: &NdArray) -> (r: NdArray)
    requires
        forall|i: int|
            0 <= i < arr_elems(arr).len() ==> in_i64(
                #[trigger] (arr_elems(arr)[i] * arr_elems(arr)[i]),
            ),
    ensures
        arr_shape(&r) == arr_shape(arr),
        arr_elems(&r).len() == arr_elems(arr).len(),
        forall|i: int|
            0 <= i < arr_elems(arr).len() ==> arr_elems(&r)[i] == arr_elems(arr)[i] * arr_elems(
                arr,
            )[i],
{
    let v = elems(arr);
    let mut out: Vec<i64> = Vec::new();
    let mut i: usize = 0;
    while i < v.len()
        invariant
            0 <= i <= v@.len(),
            v@ == arr_elems(arr),
            out@.len() == i,
            forall|k: int| 0 <= k < v@.len() ==> in_i64(#[trigger] (v@[k] * v@[k])),
            forall|k: int| 0 <= k < i ==> out@[k] == v@[k] * v@[k],
        decreases v@.len() - i,
    {
        out.push(v[i] * v[i]);
        i = i + 1;
    }
    rebuild_like(arr, out)
}

/// The sign of one element: `-1`, `0` or `1`.
pub open spec fn sign_spec(x: i64) -> i64 {
    if x == 0 {
        0i64
    } else if x > 0 {
        1i64
    } else {
        -1i64
    }
}

/// An element-wise indication of the sign of each element: `1` for
/// positive, `-1` for negative, `0` for zero.
pub fn sign(arr: &NdArray) -> (r: NdArray)
    ensures
        arr_shape(&r) == arr_shape(arr),
        arr_elems(&r).len() == arr_elems(arr).len(),
        forall|i: int|
            0 <= i < arr_elems(arr).len() ==> arr_elems(&r)[i] == sign_spec(arr_elems(arr)[i]),
{
    let v = elems(arr);
    let mut out: Vec<i64> = Vec::new();
    let mut i: usize = 0;
    while i < v.len()
        invariant
            0 <= i <= v@.len(),
            v@ == arr_elems(arr),
            out@.len() == i,
            forall|k: int| 0 <= k < i ==> out@[k] == sign_spec(v@[k]),
        decreases v@.len() - i,
    {
        if v[i] == 0 {
            out.push(0);
        } else if v[i] > 0 {
            out.push(1);
        } else {
            out.push(-1);
        }
        i = i + 1;
    }
    rebuild_like(arr, out)
}

} // verus!
