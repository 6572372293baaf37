//! Extrema of an array: a sequential scan, and a fork-join variant that
//! splits the elements into contiguous chunks, scans each on its own thread
//! and merges the per-chunk results.

use vstd::prelude::*;
use crate::arrays::{NdArray, arr_elems, elems};
use crate::parallel::{max2, scoped_chunk_maxes};
use crate::seq_ops::{
    seq_max, seq_min, lemma_seq_max_concat, lemma_seq_max_take_succ, lemma_seq_min_take_succ,
};

verus! {

/// The smallest element of a non-empty array, by a linear scan.
pub fn amin(arr: &NdArray) -> (r: i64)
    requires
        arr_elems(arr).len() > 0,
    ensures
        r == seq_min(arr_elems(arr)),
{
    let v = elems(arr);
    let mut best = v[0];
    let mut i: usize = 1;
    proof {
        assert(v@.take(1) =~= seq![v@[0]]);
    }
    while i < v.len()
        invariant
            1 <= i <= v@.len(),
            v@ == arr_elems(arr),
            best == seq_min(v@.take(i as int)),
        decreases v@.len() - i,
    {
        proof {
            lemma_seq_min_take_succ(v@, i as int);
        }
        if v[i] < best {
            best = v[i];
        }
        i = i + 1;
    }
    proof {
        assert(v@.take(v@.len() as int) =~= v@);
    }
    best
}

/// The largest element of a non-empty array: a small array is scanned
/// directly, a large one by the fork-join variant.
pub fn amax(arr: &NdArray) -> (r: i64)
    requires
        arr_elems(arr).len() > 0,
    ensures
        r == seq_max(arr_elems(arr)),
{
    let v = elems(arr);
    if v.len() < 100 {
        amax_simple(arr)
    } else {
        amax_parallelized(arr)
    }
}

/// The largest element of a non-empty array, by a linear scan.
pub fn amax_simple(arr: &NdArray) -> (r: i64)
    requires
        arr_elems(arr).len() > 0,
    ensures
        r == seq_max(arr_elems(arr)),
{
    let v = elems(arr);
    let mut best = v[0];
    let mut i: usize = 1;
    proof {
        assert(v@.take(1) =~= seq![v@[0]]);
    }
    while i < v.len()
        invariant
            1 <= i <= v@.len(),
            v@ == arr_elems(arr),
            best == seq_max(v@.take(i as int)),
        decreases v@.len() - i,
    {
        proof {
            lemma_seq_max_take_succ(v@, i as int);
        }
        if v[i] > best {
            best = v[i];
        }
        i = i + 1;
    }
    proof {
        assert(v@.take(v@.len() as int) =~= v@);
    }
    best
}

/// The largest element of a non-empty array, computed by splitting the
/// elements into contiguous chunks — one for a small array, four otherwise —
/// scanning each chunk on its own scoped thread, and merging the per-chunk
/// maxima sequentially.
pub fn amax_parallelized(arr: &NdArray) -> (r: i64)
    requires
        arr_elems(arr).len() > 0,
    ensures
        r == seq_max(arr_elems(arr)),
{
    let v = elems(arr);
    let n = v.len();
    if n < 10 {
        let mut bounds: Vec<(usize, usize)> = Vec::new();
        bounds.push((0, n));
        let maxima = scoped_chunk_maxes(&v, &bounds);
        proof {
            assert(v@.subrange(0, n as int) =~= v@);
        }
        maxima[0]
    } else {
        let q = n / 4;
        proof {
            assert(2 <= q && 3 * q < n) by (nonlinear_arith)
                requires
                    q == n / 4 && n >= 10,
            ;
        }
        let mut bounds: Vec<(usize, usize)> = Vec::new();
        bounds.push((0, q));
        bounds.push((q, 2 * q));
        bounds.push((2 * q, 3 * q));
        bounds.push((3 * q, n));
        let maxima = scoped_chunk_maxes(&v, &bounds);
        let m01 = max2(maxima[0], maxima[1]);
        let m012 = max2(m01, maxima[2]);
        let best = max2(m012, maxima[3]);
        proof {
            let s = v@;
            let q = q as int;
            let n = n as int;
            lemma_seq_max_concat(s.subrange(0, q), s.subrange(q, 2 * q));
            assert(s.subrange(0, 2 * q) =~= s.subrange(0, q) + s.subrange(q, 2 * q));
            lemma_seq_max_concat(s.subrange(0, 2 * q), s.subrange(2 * q, 3 * q));
            assert(s.subrange(0, 3 * q) =~= s.subrange(0, 2 * q) + s.subrange(2 * q, 3 * q));
            lemma_seq_max_concat(s.subrange(0, 3 * q), s.subrange(3 * q, n));
            assert(s.subrange(0, n) =~= s.subrange(0, 3 * q) + s.subrange(3 * q, n));
            assert(s.subrange(0, n) =~= s);
        }
        best
    }
}

} // verus!
