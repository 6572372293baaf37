//! Mathematical model of the library: folds, extrema, division with
//! truncation, powers and sortedness, all stated over `Seq`, plus the lemmas
//! that relate them. Every public contract in the crate speaks in these terms.

use vstd::prelude::*;

verus! {

/// `x` fits in an `i64`.
pub open spec fn in_i64(x: int) -> bool {
    i64::MIN <= x <= i64::MAX
}

/// Sum of a sequence, folded left to right from `0`.
pub open spec fn seq_sum(s: Seq<i64>) -> int
    decreases s.len(),
{
    if s.len() == 0 {
        0
    } else {
        seq_sum(s.drop_last()) + s.last()
    }
}

/// Product of a sequence, folded left to right from `1`.
pub open spec fn seq_prod(s: Seq<i64>) -> int
    decreases s.len(),
{
    if s.len() == 0 {
        1
    } else {
        seq_prod(s.drop_last()) * s.last()
    }
}

/// Largest element of a non-empty sequence.
pub open spec fn seq_max(s: Seq<i64>) -> i64
    recommends
        s.len() > 0,
    decreases s.len(),
{
    if s.len() <= 1 {
        s[0]
    } else if s.last() > seq_max(s.drop_last()) {
        s.last()
    } else {
        seq_max(s.drop_last())
    }
}

/// Smallest element of a non-empty sequence.
pub open spec fn seq_min(s: Seq<i64>) -> i64
    recommends
        s.len() > 0,
    decreases s.len(),
{
    if s.len() <= 1 {
        s[0]
    } else if s.last() < seq_min(s.drop_last()) {
        s.last()
    } else {
        seq_min(s.drop_last())
    }
}

/// Product of the per-axis extents of a shape; the element count of an array
/// with that shape. The empty shape describes a zero-dimensional array with
/// exactly one element.
pub open spec fn shape_product(s: Seq<usize>) -> int
    decreases s.len(),
{
    if s.len() == 0 {
        1
    } else {
        shape_product(s.drop_last()) * s.last()
    }
}

/// Product of the non-zero extents of a shape: the quantity the storage
/// layer bounds when it validates a shape, so that an empty axis does not
/// hide an oversized one.
pub open spec fn nonzero_product(s: Seq<usize>) -> int
    decreases s.len(),
{
    if s.len() == 0 {
        1
    } else if s.last() == 0 {
        nonzero_product(s.drop_last())
    } else {
        nonzero_product(s.drop_last()) * s.last()
    }
}

/// The product of non-zero extents is positive.
pub proof fn lemma_nonzero_product_pos(s: Seq<usize>)
    ensures
        nonzero_product(s) >= 1,
    decreases s.len(),
{
    if s.len() > 0 {
        lemma_nonzero_product_pos(s.drop_last());
        if s.last() != 0 {
            assert(nonzero_product(s) == nonzero_product(s.drop_last()) * s.last());
            assert(nonzero_product(s.drop_last()) * s.last() >= nonzero_product(s.drop_last()))
                by (nonlinear_arith)
                requires
                    nonzero_product(s.drop_last()) >= 1 && s.last() >= 1,
            ;
        }
    }
}

/// A prefix's non-zero product never exceeds the whole shape's.
pub proof fn lemma_nonzero_product_take_le(s: Seq<usize>, i: int)
    requires
        0 <= i <= s.len(),
    ensures
        nonzero_product(s.take(i)) <= nonzero_product(s),
    decreases s.len(),
{
    if i == s.len() {
        assert(s.take(i) =~= s);
    } else {
        assert(s.take(i) =~= s.drop_last().take(i));
        lemma_nonzero_product_take_le(s.drop_last(), i);
        lemma_nonzero_product_pos(s.drop_last());
        if s.last() != 0 {
            assert(nonzero_product(s) == nonzero_product(s.drop_last()) * s.last());
            assert(nonzero_product(s.drop_last()) * s.last() >= nonzero_product(s.drop_last()))
                by (nonlinear_arith)
                requires
                    nonzero_product(s.drop_last()) >= 1 && s.last() >= 1,
            ;
        }
    }
}

/// Extending a shape prefix by one extent multiplies its non-zero product
/// by that extent, or keeps it for an empty axis.
pub proof fn lemma_nonzero_product_take_succ(s: Seq<usize>, i: int)
    requires
        0 <= i < s.len(),
    ensures
        nonzero_product(s.take(i + 1)) == if s[i] == 0 {
            nonzero_product(s.take(i))
        } else {
            nonzero_product(s.take(i)) * s[i]
        },
{
    assert(s.take(i + 1).drop_last() =~= s.take(i));
    assert(s.take(i + 1).last() == s[i]);
}

/// A shape with an empty axis describes no elements.
pub proof fn lemma_shape_product_with_zero(s: Seq<usize>, z: int)
    requires
        0 <= z < s.len(),
        s[z] == 0,
    ensures
        shape_product(s) == 0,
    decreases s.len(),
{
    if z == s.len() - 1 {
        assert(shape_product(s) == shape_product(s.drop_last()) * 0);
    } else {
        lemma_shape_product_with_zero(s.drop_last(), z);
    }
}

/// Without empty axes, the element count is the non-zero product itself.
pub proof fn lemma_shape_product_no_zero(s: Seq<usize>)
    requires
        forall|i: int| 0 <= i < s.len() ==> s[i] != 0,
    ensures
        shape_product(s) == nonzero_product(s),
    decreases s.len(),
{
    if s.len() > 0 {
        lemma_shape_product_no_zero(s.drop_last());
    }
}

/// Every prefix of the left-to-right running sum of `s` fits in an `i64`.
pub open spec fn sum_prefixes_fit(s: Seq<i64>) -> bool {
    forall|i: int| 0 <= i <= s.len() ==> in_i64(seq_sum(#[trigger] s.take(i)))
}

/// Every prefix of the left-to-right running product of `s` fits in an `i64`.
pub open spec fn prod_prefixes_fit(s: Seq<i64>) -> bool {
    forall|i: int| 0 <= i <= s.len() ==> in_i64(seq_prod(#[trigger] s.take(i)))
}

/// Quotient of truncating (round-toward-zero) division, the semantics of the
/// `/` operator on machine integers.
pub open spec fn div_trunc(x: int, d: int) -> int
    recommends
        d != 0,
{
    if x == 0 {
        0
    } else if x > 0 && d > 0 {
        x / d
    } else if x < 0 && d < 0 {
        (x * -1) / (d * -1)
    } else if x < 0 {
        ((x * -1) / d) * -1
    } else {
        (x / (d * -1)) * -1
    }
}

/// Remainder of truncating division: the sign follows the dividend, the
/// semantics of the `%` operator on machine integers.
pub open spec fn rem_trunc(x: int, d: int) -> int
    recommends
        d != 0,
{
    if x == 0 {
        0
    } else if x > 0 && d > 0 {
        x % d
    } else if x < 0 && d < 0 {
        ((x * -1) % (d * -1)) * -1
    } else if x < 0 {
        ((x * -1) % d) * -1
    } else {
        x % (d * -1)
    }
}

/// `b` raised to the `e`-th power.
pub open spec fn pow_int(b: int, e: nat) -> int
    decreases e,
{
    if e == 0 {
        1
    } else {
        pow_int(b, (e - 1) as nat) * b
    }
}

/// How many elements of `s` are at or below `x`.
pub open spec fn count_le(s: Seq<i64>, x: i64) -> int
    decreases s.len(),
{
    if s.len() == 0 {
        0
    } else {
        count_le(s.drop_last(), x) + if s.last() <= x {
            1int
        } else {
            0int
        }
    }
}

/// Extending a prefix by one element raises its at-or-below count by one
/// exactly when that element is at or below the probe.
pub proof fn lemma_count_le_take_succ(s: Seq<i64>, i: int, x: i64)
    requires
        0 <= i < s.len(),
    ensures
        count_le(s.take(i + 1), x) == count_le(s.take(i), x) + if s[i] <= x {
            1int
        } else {
            0int
        },
{
    assert(s.take(i + 1).drop_last() =~= s.take(i));
    assert(s.take(i + 1).last() == s[i]);
}

/// The sequence is in nondecreasing order.
pub open spec fn sorted(s: Seq<i64>) -> bool {
    forall|i: int, j: int| 0 <= i < j < s.len() ==> s[i] <= s[j]
}

/// Extending a prefix by one element adds that element to its sum.
pub proof fn lemma_seq_sum_take_succ(s: Seq<i64>, i: int)
    requires
        0 <= i < s.len(),
    ensures
        seq_sum(s.take(i + 1)) == seq_sum(s.take(i)) + s[i],
{
    assert(s.take(i + 1).drop_last() =~= s.take(i));
    assert(s.take(i + 1).last() == s[i]);
}

/// Extending a prefix by one element multiplies its product by that element.
pub proof fn lemma_seq_prod_take_succ(s: Seq<i64>, i: int)
    requires
        0 <= i < s.len(),
    ensures
        seq_prod(s.take(i + 1)) == seq_prod(s.take(i)) * s[i],
{
    assert(s.take(i + 1).drop_last() =~= s.take(i));
    assert(s.take(i + 1).last() == s[i]);
}

/// A whole sequence is its own full-length prefix.
pub proof fn lemma_take_all(s: Seq<i64>)
    ensures
        s.take(s.len() as int) == s,
{
    assert(s.take(s.len() as int) =~= s);
}

/// The maximum of a non-empty sequence is one of its elements and is an
/// upper bound for all of them.
pub proof fn lemma_seq_max_bounds(s: Seq<i64>)
    requires
        s.len() > 0,
    ensures
        s.contains(seq_max(s)),
        forall|i: int| 0 <= i < s.len() ==> s[i] <= seq_max(s),
    decreases s.len(),
{
    if s.len() == 1 {
        assert(s[0] == seq_max(s));
    } else {
        lemma_seq_max_bounds(s.drop_last());
        let d = s.drop_last();
        if s.last() > seq_max(d) {
            assert(s[s.len() - 1] == seq_max(s));
        } else {
            let j = choose|j: int| 0 <= j < d.len() && d[j] == seq_max(d);
            assert(s[j] == seq_max(s));
        }
        assert forall|i: int| 0 <= i < s.len() implies s[i] <= seq_max(s) by {
            if i < s.len() - 1 {
                assert(d[i] <= seq_max(d));
            }
        }
    }
}

/// The minimum of a non-empty sequence is one of its elements and is a
/// lower bound for all of them.
pub proof fn lemma_seq_min_bounds(s: Seq<i64>)
    requires
        s.len() > 0,
    ensures
        s.contains(seq_min(s)),
        forall|i: int| 0 <= i < s.len() ==> seq_min(s) <= s[i],
    decreases s.len(),
{
    if s.len() == 1 {
        assert(s[0] == seq_min(s));
    } else {
        lemma_seq_min_bounds(s.drop_last());
        let d = s.drop_last();
        if s.last() < seq_min(d) {
            assert(s[s.len() - 1] == seq_min(s));
        } else {
            let j = choose|j: int| 0 <= j < d.len() && d[j] == seq_min(d);
            assert(s[j] == seq_min(s));
        }
        assert forall|i: int| 0 <= i < s.len() implies seq_min(s) <= s[i] by {
            if i < s.len() - 1 {
                assert(seq_min(d) <= d[i]);
            }
        }
    }
}

/// The sum of a concatenation is the sum of the parts: the fact that lets a
/// split-and-merge sum agree exactly with a single left-to-right fold on
/// integers, whatever the split.
pub proof fn lemma_seq_sum_concat(s1: Seq<i64>, s2: Seq<i64>)
    ensures
        seq_sum(s1 + s2) == seq_sum(s1) + seq_sum(s2),
    decreases s2.len(),
{
    if s2.len() == 0 {
        assert(s1 + s2 =~= s1);
    } else {
        lemma_seq_sum_concat(s1, s2.drop_last());
        assert((s1 + s2).drop_last() =~= s1 + s2.drop_last());
        assert((s1 + s2).last() == s2.last());
    }
}

/// The product of a concatenation is the product of the parts: the fact
/// that lets a split-and-merge product agree exactly with a single
/// left-to-right fold on integers, whatever the split.
pub proof fn lemma_seq_prod_concat(s1: Seq<i64>, s2: Seq<i64>)
    ensures
        seq_prod(s1 + s2) == seq_prod(s1) * seq_prod(s2),
    decreases s2.len(),
{
    if s2.len() == 0 {
        assert(s1 + s2 =~= s1);
    } else {
        lemma_seq_prod_concat(s1, s2.drop_last());
        assert((s1 + s2).drop_last() =~= s1 + s2.drop_last());
        assert((s1 + s2).last() == s2.last());
        assert(seq_prod(s1 + s2) == (seq_prod(s1) * seq_prod(s2.drop_last())) * s2.last());
        assert((seq_prod(s1) * seq_prod(s2.drop_last())) * s2.last() == seq_prod(s1) * (seq_prod(
            s2.drop_last(),
        ) * s2.last())) by (nonlinear_arith);
    }
}

/// The maximum of a concatenation is the larger of the two maxima: the fact
/// that lets a split-and-merge reduction agree with a single left-to-right
/// scan.
pub proof fn lemma_seq_max_concat(s1: Seq<i64>, s2: Seq<i64>)
    requires
        s1.len() > 0,
        s2.len() > 0,
    ensures
        seq_max(s1 + s2) == if seq_max(s1) >= seq_max(s2) {
            seq_max(s1)
        } else {
            seq_max(s2)
        },
    decreases s2.len(),
{
    if s2.len() == 1 {
        assert((s1 + s2).drop_last() =~= s1);
        assert((s1 + s2).last() == s2[0]);
        assert(seq_max(s2) == s2[0]);
    } else {
        lemma_seq_max_concat(s1, s2.drop_last());
        assert((s1 + s2).drop_last() =~= s1 + s2.drop_last());
        assert((s1 + s2).last() == s2.last());
    }
}

/// Extending a prefix by one element: its maximum is the larger of the old
/// maximum and the new element.
pub proof fn lemma_seq_max_take_succ(s: Seq<i64>, i: int)
    requires
        1 <= i < s.len(),
    ensures
        seq_max(s.take(i + 1)) == if s[i] > seq_max(s.take(i)) {
            s[i]
        } else {
            seq_max(s.take(i))
        },
{
    assert(s.take(i + 1).drop_last() =~= s.take(i));
    assert(s.take(i + 1).last() == s[i]);
    assert(s.take(i + 1).len() == i + 1 >= 2);
}

/// Extending a prefix by one element: its minimum is the smaller of the old
/// minimum and the new element.
pub proof fn lemma_seq_min_take_succ(s: Seq<i64>, i: int)
    requires
        1 <= i < s.len(),
    ensures
        seq_min(s.take(i + 1)) == if s[i] < seq_min(s.take(i)) {
            s[i]
        } else {
            seq_min(s.take(i))
        },
{
    assert(s.take(i + 1).drop_last() =~= s.take(i));
    assert(s.take(i + 1).last() == s[i]);
    assert(s.take(i + 1).len() == i + 1 >= 2);
}

} // verus!
