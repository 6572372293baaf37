//! Order statistics: peak-to-peak range, the what-fraction-lies-below-value
//! query, and the data-parallel extrema.

use vstd::prelude::*;
use crate::arrays::{NdArray, arr_elems, elems};
use crate::parallel::{par_max, par_min};
use crate::seq_ops::{count_le, lemma_count_le_take_succ, lemma_take_all, seq_max, seq_min};
use crate::stats::basic_stats::{amax, amin};

verus! {

/// The range of a non-empty array: its largest element minus its smallest,
/// computed as two independent scans.
pub fn ptp(arr: &NdArray) -> (r: i64)
    requires
        arr_elems(arr).len() > 0,
        seq_max(arr_elems(arr)) - seq_min(arr_elems(arr)) <= i64::MAX,
    ensures
        r == seq_max(arr_elems(arr)) - seq_min(arr_elems(arr)),
{
    let max_elem = amax(arr);
    let min_elem = amin(arr);
    proof {
        crate::seq_ops::lemma_seq_max_bounds(arr_elems(arr));
        crate::seq_ops::lemma_seq_min_bounds(arr_elems(arr));
        assert(arr_elems(arr)[0] <= seq_max(arr_elems(arr)));
        assert(seq_min(arr_elems(arr)) <= arr_elems(arr)[0]);
    }
    max_elem - min_elem
}

/// How much of a non-empty array lies at or below `search_elem`: the number
/// of elements `x` with `x <= search_elem`, paired with the total element
/// count. The quotient of the pair is the percentile of the probe value;
/// interpolation is not implemented.
pub fn percentile(arr: &NdArray, search_elem: i64, _interpolation: Option<String>) -> (r: (
    usize,
    usize,
))
    requires
        arr_elems(arr).len() > 0,
    ensures
        r.0 == count_le(arr_elems(arr), search_elem),
        r.1 == arr_elems(arr).len(),
{
    let v = elems(arr);
    let mut below: usize = 0;
    let mut i: usize = 0;
    proof {
        assert(v@.take(0) =~= Seq::<i64>::empty());
    }
    while i < v.len()
        invariant
            0 <= i <= v@.len(),
            v@ == arr_elems(arr),
            below == count_le(v@.take(i as int), search_elem),
            below <= i,
        decreases v@.len() - i,
    {
        proof {
            lemma_count_le_take_succ(v@, i as int, search_elem);
        }
        if v[i] <= search_elem {
            below = below + 1;
        }
        i = i + 1;
    }
    proof {
        lemma_take_all(v@);
    }
    (below, v.len())
}

/// The smallest element of a non-empty array, computed by a data-parallel
/// reduction; the minimum reassociates exactly, so it agrees with [`amin`].
pub fn amin_rayon(arr: &NdArray) -> (r: i64)
    requires
        arr_elems(arr).len() > 0,
    ensures
        r == seq_min(arr_elems(arr)),
{
    let v = elems(arr);
    match par_min(&v) {
        Some(m) => m,
        None => {
            proof {
                assert(false);
            }
            0
        },
    }
}

/// The largest element of a non-empty array, computed by a data-parallel
/// reduction; the maximum reassociates exactly, so it agrees with [`amax`].
pub fn amax_rayon(arr: &NdArray) -> (r: i64)
    requires
        arr_elems(arr).len() > 0,
    ensures
        r == seq_max(arr_elems(arr)),
{
    let v = elems(arr);
    match par_max(&v) {
        Some(m) => m,
        None => {
            proof {
                assert(false);
            }
            0
        },
    }
}

} // verus!
