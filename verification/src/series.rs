//! Sums, minima and maxima of integer sequences, and rounded integer
//! division, with the lemmas the pipeline stages need.

use vstd::prelude::*;
use vstd::arithmetic::div_mod::{
    lemma_div_is_ordered, lemma_div_multiples_vanish_fancy, lemma_fundamental_div_mod,
    lemma_mod_division_less_than_divisor,
};

verus! {

/// `t / k` rounded to the nearest integer, ties rounding up. Written as a
/// single floor division; for `t >= 0` this is the usual half-up rounding.
pub open spec fn rounded_mean(t: int, k: int) -> int
    recommends
        k > 0,
{
    (2 * t + k) / (2 * k)
}

/// A rounded mean of `k` values drawn from `[lo, hi]` lies in `[lo, hi]`.
pub proof fn lemma_rounded_mean_bounds(t: int, k: int, lo: int, hi: int)
    requires
        0 < k,
        k * lo <= t <= k * hi,
    ensures
        lo <= rounded_mean(t, k) <= hi,
{
    assert((2 * k) * lo + k <= 2 * t + k) by (nonlinear_arith)
        requires
            k * lo <= t,
    ;
    assert(2 * t + k <= (2 * k) * hi + k) by (nonlinear_arith)
        requires
            t <= k * hi,
    ;
    lemma_div_is_ordered((2 * k) * lo + k, 2 * t + k, 2 * k);
    lemma_div_is_ordered(2 * t + k, (2 * k) * hi + k, 2 * k);
    lemma_div_multiples_vanish_fancy(lo, k, 2 * k);
    lemma_div_multiples_vanish_fancy(hi, k, 2 * k);
}

/// The rounded mean is within half a unit of the exact quotient `t / k`:
/// `|rounded_mean(t, k) - t / k| <= 1/2`, stated without fractions.
pub proof fn lemma_rounded_mean_close(t: int, k: int)
    requires
        0 < k,
    ensures
        -k < 2 * k * rounded_mean(t, k) - 2 * t <= k,
{
    let q = (2 * t + k) / (2 * k);
    let m = (2 * t + k) % (2 * k);
    lemma_fundamental_div_mod(2 * t + k, 2 * k);
    lemma_mod_division_less_than_divisor(2 * t + k, 2 * k);
    assert(2 * t + k == 2 * k * q + m);
    assert(0 <= m < 2 * k);
}

/// Sum of all elements of `s`.
pub open spec fn sum_int(s: Seq<int>) -> int
    decreases s.len(),
{
    if s.len() == 0 {
        0
    } else {
        sum_int(s.drop_last()) + s.last()
    }
}

/// Minimum of a non-empty sequence.
pub open spec fn min_int(s: Seq<int>) -> int
    recommends
        s.len() > 0,
    decreases s.len(),
{
    if s.len() <= 1 {
        s[0]
    } else {
        let rest = min_int(s.drop_last());
        if s.last() < rest {
            s.last()
        } else {
            rest
        }
    }
}

/// Maximum of a non-empty sequence.
pub open spec fn max_int(s: Seq<int>) -> int
    recommends
        s.len() > 0,
    decreases s.len(),
{
    if s.len() <= 1 {
        s[0]
    } else {
        let rest = max_int(s.drop_last());
        if s.last() > rest {
            s.last()
        } else {
            rest
        }
    }
}

/// Extending a subrange of `s` by one element on the right adds that element
/// to its sum.
pub proof fn lemma_sum_subrange_extend(s: Seq<int>, lo: int, hi: int)
    requires
        0 <= lo <= hi < s.len(),
    ensures
        sum_int(s.subrange(lo, hi + 1)) == sum_int(s.subrange(lo, hi)) + s[hi],
{
    let ext = s.subrange(lo, hi + 1);
    assert(ext.drop_last() =~= s.subrange(lo, hi));
    assert(ext.last() == s[hi]);
}

/// A sequence of zeros sums to zero.
pub proof fn lemma_sum_all_zero(s: Seq<int>)
    requires
        forall|i: int| 0 <= i < s.len() ==> #[trigger] s[i] == 0,
    ensures
        sum_int(s) == 0,
    decreases s.len(),
{
    if s.len() > 0 {
        lemma_sum_all_zero(s.drop_last());
    }
}

/// Adding `d` to one element of a sequence adds `d` to its sum.
pub proof fn lemma_sum_update_add(s: Seq<int>, j: int, d: int)
    requires
        0 <= j < s.len(),
    ensures
        sum_int(s.update(j, s[j] + d)) == sum_int(s) + d,
    decreases s.len(),
{
    let u = s.update(j, s[j] + d);
    if j == s.len() - 1 {
        assert(u.drop_last() =~= s.drop_last());
        assert(u.last() == s[j] + d);
    } else {
        lemma_sum_update_add(s.drop_last(), j, d);
        assert(u.drop_last() =~= s.drop_last().update(j, s.drop_last()[j] + d));
        assert(u.last() == s.last());
    }
}

/// A sum over elements that all lie in `[lo, hi]` lies in
/// `[len * lo, len * hi]`.
pub proof fn lemma_sum_bounds(s: Seq<int>, lo: int, hi: int)
    requires
        forall|i: int| 0 <= i < s.len() ==> lo <= #[trigger] s[i] <= hi,
    ensures
        s.len() * lo <= sum_int(s) <= s.len() * hi,
    decreases s.len(),
{
    if s.len() == 0 {
    } else {
        lemma_sum_bounds(s.drop_last(), lo, hi);
        assert((s.len() - 1) * lo + lo == s.len() * lo) by (nonlinear_arith);
        assert((s.len() - 1) * hi + hi == s.len() * hi) by (nonlinear_arith);
    }
}

/// The minimum of a non-empty sequence is attained and bounds every element.
pub proof fn lemma_min_int(s: Seq<int>)
    requires
        s.len() > 0,
    ensures
        forall|i: int| 0 <= i < s.len() ==> min_int(s) <= #[trigger] s[i],
        exists|i: int| 0 <= i < s.len() && min_int(s) == s[i],
    decreases s.len(),
{
    if s.len() == 1 {
        assert(min_int(s) == s[0]);
    } else {
        lemma_min_int(s.drop_last());
        assert(forall|i: int| 0 <= i < s.len() - 1 ==> s.drop_last()[i] == #[trigger] s[i]);
        let rest = min_int(s.drop_last());
        if s.last() < rest {
            assert(min_int(s) == s[s.len() - 1]);
        } else {
            let j = choose|j: int| 0 <= j < s.len() - 1 && rest == s.drop_last()[j];
            assert(min_int(s) == s[j]);
        }
    }
}

/// The maximum of a non-empty sequence is attained and bounds every element.
pub proof fn lemma_max_int(s: Seq<int>)
    requires
        s.len() > 0,
    ensures
        forall|i: int| 0 <= i < s.len() ==> #[trigger] s[i] <= max_int(s),
        exists|i: int| 0 <= i < s.len() && max_int(s) == s[i],
    decreases s.len(),
{
    if s.len() == 1 {
        assert(max_int(s) == s[0]);
    } else {
        lemma_max_int(s.drop_last());
        assert(forall|i: int| 0 <= i < s.len() - 1 ==> s.drop_last()[i] == #[trigger] s[i]);
        let rest = max_int(s.drop_last());
        if s.last() > rest {
            assert(max_int(s) == s[s.len() - 1]);
        } else {
            let j = choose|j: int| 0 <= j < s.len() - 1 && rest == s.drop_last()[j];
            assert(max_int(s) == s[j]);
        }
    }
}

} // verus!
