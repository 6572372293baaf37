//! Averages over the flattened elements of an array: the mean, the
//! Bessel-corrected sample variance, the standard deviation, and the median
//! over a sorted copy of the elements.
//!
//! All arithmetic is integer arithmetic: the mean and the median's
//! even-count case divide with truncation, and the standard deviation is
//! the integer square root of the variance.

use vstd::prelude::*;
use vstd::relations::{sorted_by, total_ordering};
use vstd::seq_lib::{lemma_sorted_unique, group_to_multiset_ensures};
use crate::arrays::{NdArray, arr_elems, elems};
use crate::parallel::range_sums_fit;
use crate::math::arithmetic::{i64_div_trunc};
use crate::math::sumproddif::{sum, sum_rayon};
use crate::seq_ops::{
    div_trunc, in_i64, lemma_take_all, seq_sum, sorted, sum_prefixes_fit,
};

verus! {

/// The nondecreasing order on `i64`, as a relation value for the sorting
/// model.
pub open spec fn i64_leq() -> spec_fn(i64, i64) -> bool {
    |x: i64, y: i64| x <= y
}

/// The elements of `s` rearranged into nondecreasing order.
pub open spec fn sort_seq(s: Seq<i64>) -> Seq<i64> {
    s.sort_by(i64_leq())
}

/// The mean of `s` under truncating division: the sum over the count.
pub open spec fn mean_of(s: Seq<i64>) -> int
    recommends
        s.len() > 0,
{
    div_trunc(seq_sum(s), s.len() as int)
}

/// The sum of squared deviations of the elements of `s` from `mu`.
pub open spec fn sq_dev_sum(s: Seq<i64>, mu: int) -> int
    decreases s.len(),
{
    if s.len() == 0 {
        0
    } else {
        sq_dev_sum(s.drop_last(), mu) + (s.last() - mu) * (s.last() - mu)
    }
}

/// The sample variance of `s`: squared deviations from the mean over the
/// count less one.
pub open spec fn var_of(s: Seq<i64>) -> int
    recommends
        s.len() >= 2,
{
    div_trunc(sq_dev_sum(s, mean_of(s)), s.len() - 1)
}

/// The median of `s`: the middle element of its sorted arrangement, or the
/// truncating mean of the two middle elements when the count is even.
pub open spec fn median_of(s: Seq<i64>) -> int
    recommends
        s.len() > 0,
{
    let t = sort_seq(s);
    let n = t.len() as int;
    if n % 2 == 1 {
        t[n / 2] as int
    } else {
        div_trunc(t[n / 2 - 1] + t[n / 2], 2)
    }
}

/// The nondecreasing order is a total ordering.
proof fn lemma_i64_leq_total()
    ensures
        total_ordering(i64_leq()),
{
    let leq = i64_leq();
    assert forall|x: i64| #[trigger] leq(x, x) by {}
}

/// This crate's `sorted` is sortedness by the nondecreasing order.
proof fn lemma_sorted_is_sorted_by(s: Seq<i64>)
    ensures
        sorted(s) <==> sorted_by(s, i64_leq()),
{
    let leq = i64_leq();
    if sorted(s) {
        assert forall|i: int, j: int| 0 <= i < j < s.len() implies #[trigger] leq(s[i], s[j]) by {
            assert(s[i] <= s[j]);
        }
    }
    if sorted_by(s, leq) {
        assert forall|i: int, j: int| 0 <= i < j < s.len() implies s[i] <= s[j] by {
            assert(leq(s[i], s[j]));
        }
    }
}

/// What sorting promises: the sorted arrangement is sorted, has the same
/// length, and holds the same elements with the same multiplicities.
pub proof fn lemma_sort_seq_ensures(s: Seq<i64>)
    ensures
        sorted(sort_seq(s)),
        sort_seq(s).len() == s.len(),
        sort_seq(s).to_multiset() == s.to_multiset(),
{
    broadcast use group_to_multiset_ensures;

    s.lemma_sort_by_ensures(i64_leq());
    lemma_sorted_is_sorted_by(sort_seq(s));
    assert(s.to_multiset().len() == s.len());
    assert(sort_seq(s).to_multiset().len() == sort_seq(s).len());
}

/// A sequence that is sorted and holds the same elements as `s` with the
/// same multiplicities is the sorted arrangement of `s`: sorting has a
/// unique answer.
pub proof fn lemma_sorted_perm_is_sort_seq(s: Seq<i64>, t: Seq<i64>)
    requires
        sorted(t),
        t.to_multiset() == s.to_multiset(),
    ensures
        t == sort_seq(s),
{
    lemma_sort_seq_ensures(s);
    lemma_sorted_is_sorted_by(t);
    lemma_sorted_is_sorted_by(sort_seq(s));
    lemma_i64_leq_total();
    lemma_sorted_unique(t, sort_seq(s), i64_leq());
}

/// Inserts `x` into a sorted vector, keeping it sorted; the contents grow
/// by exactly `x`.
fn insert_sorted(out: &mut Vec<i64>, x: i64)
    requires
        sorted(old(out)@),
    ensures
        sorted(final(out)@),
        final(out)@.to_multiset() == old(out)@.to_multiset().insert(x),
        final(out)@.len() == old(out)@.len() + 1,
{
    broadcast use group_to_multiset_ensures;

    let ghost g = out@;
    let mut pos: usize = 0;
    while pos < out.len() && out[pos] < x
        invariant
            0 <= pos <= g.len(),
            out@ == g,
            forall|k: int| 0 <= k < pos ==> g[k] < x,
        decreases g.len() - pos,
    {
        pos = pos + 1;
    }
    out.insert(pos, x);
    proof {
        g.insert_ensures(pos as int, x);
        let t = g.insert(pos as int, x);
        assert forall|i: int, j: int| 0 <= i < j < t.len() implies t[i] <= t[j] by {
            if j < pos {
                assert(t[i] == g[i] && t[j] == g[j]);
            } else if j == pos {
                assert(i < pos && t[i] == g[i] && g[i] < x);
            } else {
                assert(t[j] == g[j - 1]);
                if i < pos {
                    assert(t[i] == g[i]);
                    if pos < g.len() {
                        assert(g[i] <= g[j - 1]);
                    }
                } else if i == pos {
                    assert(t[i] == x);
                    assert(pos < g.len() && !(g[pos as int] < x));
                    assert(g[pos as int] <= g[j - 1]);
                } else {
                    assert(t[i] == g[i - 1]);
                }
            }
        }
    }
}

/// A sorted copy of the elements: in nondecreasing order, one entry per
/// element of the array.
pub fn sort_to_vec(arr: &NdArray) -> (r: Vec<i64>)
    ensures
        r@ == sort_seq(arr_elems(arr)),
        sorted(r@),
        r@.len() == arr_elems(arr).len(),
{
    broadcast use group_to_multiset_ensures;

    let v = elems(arr);
    let mut out: Vec<i64> = Vec::new();
    let mut i: usize = 0;
    proof {
        assert(v@.take(0) =~= Seq::<i64>::empty());
        assert(out@.to_multiset() =~= v@.take(0).to_multiset());
    }
    while i < v.len()
        invariant
            0 <= i <= v@.len(),
            v@ == arr_elems(arr),
            sorted(out@),
            out@.len() == i,
            out@.to_multiset() == v@.take(i as int).to_multiset(),
        decreases v@.len() - i,
    {
        proof {
            v@.take(i as int).to_multiset_ensures();
            assert(v@.take(i + 1) =~= v@.take(i as int).push(v@[i as int]));
            assert(v@.take(i as int).push(v@[i as int]).to_multiset() == v@.take(
                i as int,
            ).to_multiset().insert(v@[i as int]));
            assert(v@.take(i + 1).to_multiset() == v@.take(i as int).to_multiset().insert(
                v@[i as int],
            ));
        }
        insert_sorted(&mut out, v[i]);
        i = i + 1;
    }
    proof {
        assert(v@.take(v@.len() as int) =~= v@);
        lemma_sorted_perm_is_sort_seq(v@, out@);
    }
    out
}

/// The median of a non-empty array: the middle of the sorted elements, or
/// the truncating mean of the two middle ones for an even count.
pub fn median(arr: &NdArray) -> (r: i64)
    requires
        arr_elems(arr).len() > 0,
        arr_elems(arr).len() % 2 == 0 ==> in_i64(
            sort_seq(arr_elems(arr))[arr_elems(arr).len() as int / 2 - 1] + sort_seq(
                arr_elems(arr),
            )[arr_elems(arr).len() as int / 2],
        ),
    ensures
        r == median_of(arr_elems(arr)),
{
    let sorted_elem = sort_to_vec(arr);
    let num_elem = sorted_elem.len();
    if num_elem % 2 == 0 {
        let a = sorted_elem[num_elem / 2 - 1];
        let b = sorted_elem[num_elem / 2];
        i64_div_trunc(a + b, 2)
    } else {
        sorted_elem[num_elem / 2]
    }
}

/// The mean of a non-empty array: the element sum over the element count,
/// under truncating division.
pub fn mean(arr: &NdArray) -> (r: i64)
    requires
        arr_elems(arr).len() > 0,
        arr_elems(arr).len() <= i64::MAX,
        sum_prefixes_fit(arr_elems(arr)),
    ensures
        r == mean_of(arr_elems(arr)),
{
    let arr_sum = sum(arr);
    let v = elems(arr);
    let num_elem = v.len() as i64;
    i64_div_trunc(arr_sum, num_elem)
}

/// The mean of a non-empty array, its sum computed by a data-parallel
/// reduction; integer addition reassociates exactly, so it agrees with
/// [`mean`].
pub fn mean_rayon(arr: &NdArray) -> (r: i64)
    requires
        arr_elems(arr).len() > 0,
        arr_elems(arr).len() <= i64::MAX,
        range_sums_fit(arr_elems(arr)),
    ensures
        r == mean_of(arr_elems(arr)),
{
    let arr_sum = sum_rayon(arr);
    let v = elems(arr);
    let num_elem = v.len() as i64;
    i64_div_trunc(arr_sum, num_elem)
}

/// Extending a prefix by one element adds that element's squared deviation.
proof fn lemma_sq_dev_take_succ(s: Seq<i64>, mu: int, i: int)
    requires
        0 <= i < s.len(),
    ensures
        sq_dev_sum(s.take(i + 1), mu) == sq_dev_sum(s.take(i), mu) + (s[i] - mu) * (s[i] - mu),
{
    assert(s.take(i + 1).drop_last() =~= s.take(i));
    assert(s.take(i + 1).last() == s[i]);
}

/// A sum of squared deviations is nonnegative.
proof fn lemma_sq_dev_nonneg(s: Seq<i64>, mu: int)
    ensures
        0 <= sq_dev_sum(s, mu),
    decreases s.len(),
{
    if s.len() > 0 {
        lemma_sq_dev_nonneg(s.drop_last(), mu);
        let d = s.last() - mu;
        assert(0 <= d * d) by (nonlinear_arith);
    }
}

/// Squared deviations only grow as the prefix grows.
proof fn lemma_sq_dev_prefix_le(s: Seq<i64>, mu: int, i: int)
    requires
        0 <= i <= s.len(),
    ensures
        sq_dev_sum(s.take(i), mu) <= sq_dev_sum(s, mu),
    decreases s.len(),
{
    if i == s.len() {
        assert(s.take(i) =~= s);
    } else {
        assert(s.take(i) =~= s.drop_last().take(i));
        lemma_sq_dev_prefix_le(s.drop_last(), mu, i);
        let d = s.last() - mu;
        assert(0 <= d * d) by (nonlinear_arith);
    }
}

/// The sample variance of an array of at least two elements: the sum of
/// squared deviations from the mean, over the count less one.
pub fn var(arr: &NdArray) -> (r: i64)
    requires
        arr_elems(arr).len() >= 2,
        arr_elems(arr).len() <= i64::MAX,
        sum_prefixes_fit(arr_elems(arr)),
        forall|i: int|
            0 <= i < arr_elems(arr).len() ==> in_i64(
                #[trigger] arr_elems(arr)[i] - mean_of(arr_elems(arr)),
            ),
        sq_dev_sum(arr_elems(arr), mean_of(arr_elems(arr))) <= i64::MAX,
    ensures
        r == var_of(arr_elems(arr)),
{
    let avg = mean(arr);
    let v = elems(arr);
    let mut acc: i64 = 0;
    let mut i: usize = 0;
    proof {
        assert(v@.take(0) =~= Seq::<i64>::empty());
    }
    while i < v.len()
        invariant
            0 <= i <= v@.len(),
            v@ == arr_elems(arr),
            v@.len() >= 2,
            avg == mean_of(v@),
            forall|k: int| 0 <= k < v@.len() ==> in_i64(#[trigger] v@[k] - mean_of(v@)),
            sq_dev_sum(v@, mean_of(v@)) <= i64::MAX,
            acc == sq_dev_sum(v@.take(i as int), avg as int),
        decreases v@.len() - i,
    {
        proof {
            lemma_sq_dev_take_succ(v@, avg as int, i as int);
            lemma_sq_dev_nonneg(v@.take(i as int), avg as int);
            lemma_sq_dev_prefix_le(v@, avg as int, i + 1);
            let d = v@[i as int] - avg;
            assert(0 <= d * d) by (nonlinear_arith);
        }
        let dev = v[i] - avg;
        acc = acc + dev * dev;
        i = i + 1;
    }
    proof {
        lemma_take_all(v@);
    }
    i64_div_trunc(acc, (v.len() - 1) as i64)
}

/// The integer square root: the largest `r` with `r * r <= n`.
fn isqrt_u64(n: u64) -> (r: u64)
    ensures
        r * r <= n < (r + 1) * (r + 1),
{
    if n == 0 {
        return 0;
    }
    let mut lo: u64 = 0;
    let mut hi: u64 = 4294967296;
    proof {
        assert((hi as int) * (hi as int) > u64::MAX) by (nonlinear_arith)
            requires
                hi == 4294967296,
        ;
    }
    while hi - lo > 1
        invariant
            lo < hi <= 4294967296,
            lo * lo <= n,
            (hi as int) * (hi as int) > n,
        decreases hi - lo,
    {
        let mid = lo + (hi - lo) / 2;
        proof {
            assert((mid as int) * (mid as int) <= u64::MAX) by (nonlinear_arith)
                requires
                    mid < 4294967296,
            ;
        }
        if mid * mid <= n {
            lo = mid;
        } else {
            hi = mid;
        }
    }
    lo
}

/// The standard deviation of an array of at least two elements: the integer
/// square root of the sample variance. The result is the unique `r >= 0`
/// with `r * r <= var < (r + 1) * (r + 1)`.
pub fn std_dev(arr: &NdArray) -> (r: i64)
    requires
        arr_elems(arr).len() >= 2,
        arr_elems(arr).len() <= i64::MAX,
        sum_prefixes_fit(arr_elems(arr)),
        forall|i: int|
            0 <= i < arr_elems(arr).len() ==> in_i64(
                #[trigger] arr_elems(arr)[i] - mean_of(arr_elems(arr)),
            ),
        sq_dev_sum(arr_elems(arr), mean_of(arr_elems(arr))) <= i64::MAX,
    ensures
        0 <= r,
        r * r <= var_of(arr_elems(arr)) < (r + 1) * (r + 1),
{
    let x = var(arr);
    proof {
        lemma_sq_dev_nonneg(arr_elems(arr), mean_of(arr_elems(arr)));
        vstd::arithmetic::div_mod::lemma_div_pos_is_pos(
            sq_dev_sum(arr_elems(arr), mean_of(arr_elems(arr))),
            arr_elems(arr).len() - 1,
        );
    }
    let s = isqrt_u64(x as u64);
    proof {
        assert(s <= 3037000499) by (nonlinear_arith)
            requires
                (s as int) * (s as int) <= i64::MAX,
        ;
    }
    s as i64
}

} // verus!
