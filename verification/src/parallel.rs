//! The trusted boundary around the data-parallel reductions.
//!
//! The parallel reduction variants hand a flat element vector to `rayon`'s
//! `reduce_with`, or split it into chunks scanned by scoped `crossbeam`
//! threads. Each trusted item below states what the outside call returns in
//! terms of the same sequence model the sequential reductions use; the
//! combining operations themselves are verified functions of this crate.

use vstd::prelude::*;
use rayon::iter::{IntoParallelRefIterator, ParallelIterator};
use crate::seq_ops::{in_i64, seq_max, seq_min, seq_sum, seq_prod};

verus! {

/// The larger of two values.
pub(crate) fn max2(a: i64, b: i64) -> (r: i64)
    ensures
        r == if a >= b {
            a
        } else {
            b
        },
{
    if a >= b {
        a
    } else {
        b
    }
}

/// The smaller of two values.
pub(crate) fn min2(a: i64, b: i64) -> (r: i64)
    ensures
        r == if a <= b {
            a
        } else {
            b
        },
{
    if a <= b {
        a
    } else {
        b
    }
}

/// The sum of two values that is known to fit.
pub(crate) fn add2(a: i64, b: i64) -> (r: i64)
    requires
        in_i64(a + b),
    ensures
        r == a + b,
{
    a + b
}

/// The product of two values that is known to fit.
pub(crate) fn mul2(a: i64, b: i64) -> (r: i64)
    requires
        in_i64(a * b),
    ensures
        r == a * b,
{
    a * b
}

/// Every sum of a contiguous run of `s` fits in an `i64`.
pub open spec fn range_sums_fit(s: Seq<i64>) -> bool {
    forall|i: int, j: int|
        0 <= i <= j <= s.len() ==> in_i64(seq_sum(#[trigger] s.subrange(i, j)))
}

/// Every product of a contiguous run of `s` fits in an `i64`.
pub open spec fn range_prods_fit(s: Seq<i64>) -> bool {
    forall|i: int, j: int|
        0 <= i <= j <= s.len() ==> in_i64(seq_prod(#[trigger] s.subrange(i, j)))
}

/// Relies on rayon's `reduce_with`: it folds the items with the given
/// operation over some bracketing of contiguous runs and returns `None`
/// exactly on an empty iterator. The maximum is associative and commutative,
/// so every bracketing yields the maximum element.
#[verifier::external_body]
pub(crate) fn par_max(v: &Vec<i64>) -> (r: Option<i64>)
    ensures
        r == if v@.len() == 0 {
            Option::<i64>::None
        } else {
            Option::Some(seq_max(v@))
        },
{
    v.par_iter().copied().reduce_with(|a, b| max2(a, b))
}

/// Relies on rayon's `reduce_with`, as `par_max` does: the minimum is
/// associative and commutative, so every bracketing yields the minimum
/// element.
#[verifier::external_body]
pub(crate) fn par_min(v: &Vec<i64>) -> (r: Option<i64>)
    ensures
        r == if v@.len() == 0 {
            Option::<i64>::None
        } else {
            Option::Some(seq_min(v@))
        },
{
    v.par_iter().copied().reduce_with(|a, b| min2(a, b))
}

/// Relies on rayon's `reduce_with`: integer addition is associative and
/// commutative, so every bracketing of contiguous runs yields the total sum,
/// and each intermediate value is the sum of a contiguous run, which the
/// caller guarantees to fit.
#[verifier::external_body]
pub(crate) fn par_sum(v: &Vec<i64>) -> (r: Option<i64>)
    requires
        range_sums_fit(v@),
    ensures
        r == if v@.len() == 0 {
            Option::<i64>::None
        } else {
            Option::Some(seq_sum(v@) as i64)
        },
{
    v.par_iter().copied().reduce_with(|a, b| add2(a, b))
}

/// Relies on rayon's `reduce_with`: integer multiplication is associative
/// and commutative, so every bracketing of contiguous runs yields the total
/// product, and each intermediate value is the product of a contiguous run,
/// which the caller guarantees to fit.
#[verifier::external_body]
pub(crate) fn par_prod(v: &Vec<i64>) -> (r: Option<i64>)
    requires
        range_prods_fit(v@),
    ensures
        r == if v@.len() == 0 {
            Option::<i64>::None
        } else {
            Option::Some(seq_prod(v@) as i64)
        },
{
    v.par_iter().copied().reduce_with(|a, b| mul2(a, b))
}

/// The largest element of `v[lo..hi]`, by a verified linear scan: the work
/// one parallel worker does on its chunk.
pub(crate) fn chunk_max(v: &Vec<i64>, lo: usize, hi: usize) -> (r: i64)
    requires
        lo < hi <= v@.len(),
    ensures
        r == seq_max(v@.subrange(lo as int, hi as int)),
{
    let mut best = v[lo];
    let mut i: usize = lo + 1;
    proof {
        assert(v@.subrange(lo as int, lo + 1) =~= seq![v@[lo as int]]);
    }
    while i < hi
        invariant
            lo < i <= hi <= v@.len(),
            best == seq_max(v@.subrange(lo as int, i as int)),
        decreases hi - i,
    {
        proof {
            let s = v@.subrange(lo as int, i + 1);
            assert(s.drop_last() =~= v@.subrange(lo as int, i as int));
            assert(s.last() == v@[i as int]);
        }
        if v[i] > best {
            best = v[i];
        }
        i = i + 1;
    }
    best
}

/// Relies on crossbeam's scoped threads: `scope` runs every spawned closure
/// to completion before returning, and `join` hands back the closure's
/// result. Each closure only calls the verified `chunk_max` on its chunk.
#[verifier::external_body]
pub(crate) fn scoped_chunk_maxes(v: &Vec<i64>, bounds: &Vec<(usize, usize)>) -> (r: Vec<i64>)
    requires
        forall|k: int|
            0 <= k < bounds@.len() ==> (#[trigger] bounds@[k]).0 < bounds@[k].1 <= v@.len(),
    ensures
        r@.len() == bounds@.len(),
        forall|k: int|
            0 <= k < r@.len() ==> #[trigger] r@[k] == seq_max(
                v@.subrange(bounds@[k].0 as int, bounds@[k].1 as int),
            ),
{
    crossbeam::thread::scope(|s| {
        let handles: Vec<_> = bounds
            .iter()
            .map(|&(lo, hi)| s.spawn(move |_| chunk_max(v, lo, hi)))
            .collect();
        handles.into_iter().map(|h| h.join().unwrap()).collect()
    })
    .unwrap()
}

} // verus!
