//! The one-day-change histogram: each row's one-day percent change falls
//! into exactly one of twelve ordered bins, and the bin counts always sum
//! to the number of rows.
//!
//! The bins are `(-inf, -15)`, `[-15, -12)`, ..., `[12, 15)`, `[15, +inf)`
//! percent: every boundary belongs to the bin it begins, and the last bin
//! includes its lower bound. Classification compares the exact rational
//! percent value against the boundaries, so a change of exactly a boundary
//! value always lands in the bin beginning there.

use vstd::prelude::*;
use crate::price_change::{PriceChangeRow, Percent};
use crate::series::{sum_int, lemma_sum_update_add, lemma_sum_all_zero};

verus! {

/// Number of histogram bins.
pub const BIN_COUNT: usize = 12;

/// The bin counts as mathematical integers.
pub open spec fn counts_view(v: Seq<usize>) -> Seq<int> {
    Seq::new(v.len(), |b: int| v[b] as int)
}

/// The bin holding the exact percent value of `p`: bin 0 is everything
/// below -15 percent, bins 1 through 10 are the half-open three-percent
/// ranges from `[-15, -12)` up to `[12, 15)`, and bin 11 is everything at
/// or above 15 percent.
pub open spec fn spec_bin_index(p: Percent) -> int
    recommends
        p.den > 0,
{
    let num = p.num as int;
    let den = p.den as int;
    if num < -15 * den {
        0
    } else if num < -12 * den {
        1
    } else if num < -9 * den {
        2
    } else if num < -6 * den {
        3
    } else if num < -3 * den {
        4
    } else if num < 0 {
        5
    } else if num < 3 * den {
        6
    } else if num < 6 * den {
        7
    } else if num < 9 * den {
        8
    } else if num < 12 * den {
        9
    } else if num < 15 * den {
        10
    } else {
        11
    }
}

/// The twelve bin counts of a sequence of rows, classified by each row's
/// one-day percent change.
pub open spec fn spec_bin_counts(rows: Seq<PriceChangeRow>) -> Seq<int>
    decreases rows.len(),
{
    if rows.len() == 0 {
        Seq::new(BIN_COUNT as nat, |b: int| 0)
    } else {
        let prev = spec_bin_counts(rows.drop_last());
        let b = spec_bin_index(rows.last().percent_change_1_day);
        prev.update(b, prev[b] + 1)
    }
}

/// Every percent value lands in exactly one of the twelve bins.
pub proof fn lemma_bin_index_range(p: Percent)
    requires
        p.den > 0,
    ensures
        0 <= spec_bin_index(p) < BIN_COUNT,
{
}

/// A change of exactly -15 percent lies in the bin beginning at -15, not
/// in the open bin below it: boundaries belong to the bin they begin.
pub proof fn lemma_boundary_belongs_to_upper_bin(p: Percent)
    requires
        p.den > 0,
        p.num == -15 * p.den,
    ensures
        spec_bin_index(p) == 1,
{
}

/// There are always twelve bin counts.
pub proof fn lemma_bin_counts_len(rows: Seq<PriceChangeRow>)
    ensures
        spec_bin_counts(rows).len() == BIN_COUNT,
    decreases rows.len(),
{
    if rows.len() > 0 {
        lemma_bin_counts_len(rows.drop_last());
    }
}

/// Each bin count lies between zero and the number of rows.
pub proof fn lemma_bin_counts_range(rows: Seq<PriceChangeRow>)
    ensures
        forall|b: int|
            0 <= b < BIN_COUNT ==> 0 <= #[trigger] spec_bin_counts(rows)[b] <= rows.len(),
    decreases rows.len(),
{
    lemma_bin_counts_len(rows);
    if rows.len() > 0 {
        lemma_bin_counts_range(rows.drop_last());
        lemma_bin_counts_len(rows.drop_last());
    }
}

/// The twelve bin counts sum to the number of rows: every row lands in
/// exactly one bin.
pub proof fn lemma_bin_counts_sum(rows: Seq<PriceChangeRow>)
    ensures
        sum_int(spec_bin_counts(rows)) == rows.len(),
    decreases rows.len(),
{
    if rows.len() == 0 {
        lemma_sum_all_zero(spec_bin_counts(rows));
    } else {
        lemma_bin_counts_sum(rows.drop_last());
        lemma_bin_counts_len(rows.drop_last());
        let prev = spec_bin_counts(rows.drop_last());
        let b = spec_bin_index(rows.last().percent_change_1_day);
        lemma_sum_update_add(prev, b, 1);
    }
}

/// The histogram: one count per bin, in bin order, and the total number of
/// classified rows.
#[derive(Debug)]
pub struct Histogram {
    pub counts: Vec<usize>,
    pub total_days: usize,
}

impl Histogram {
    /// The bin that the one-day percent change of a row falls in.
    pub fn bin_index(p: &Percent) -> (b: usize)
        requires
            p.wf(),
        ensures
            b as int == spec_bin_index(*p),
            b < BIN_COUNT,
    {
        if p.below(-15) {
            0
        } else if p.below(-12) {
            1
        } else if p.below(-9) {
            2
        } else if p.below(-6) {
            3
        } else if p.below(-3) {
            4
        } else if p.below(0) {
            5
        } else if p.below(3) {
            6
        } else if p.below(6) {
            7
        } else if p.below(9) {
            8
        } else if p.below(12) {
            9
        } else if p.below(15) {
            10
        } else {
            11
        }
    }

    /// Classifies every row's one-day percent change. The counts come out
    /// in bin order, each equal to the number of rows whose change lies in
    /// that bin, and they sum to the number of rows.
    pub fn new(rows: &Vec<PriceChangeRow>) -> (h: Histogram)
        requires
            forall|i: int|
                0 <= i < rows@.len() ==> (#[trigger] rows@[i]).percent_change_1_day.wf(),
        ensures
            h.counts@.len() == BIN_COUNT,
            h.total_days == rows@.len(),
            forall|b: int|
                0 <= b < BIN_COUNT ==> #[trigger] h.counts@[b] as int == spec_bin_counts(rows@)[b],
            sum_int(counts_view(h.counts@)) == rows@.len(),
    {
        let ghost rs = rows@;
        let mut counts: Vec<usize> = Vec::new();
        let mut b: usize = 0;
        while b < BIN_COUNT
            invariant
                counts@.len() == b,
                b <= BIN_COUNT,
                forall|t: int| 0 <= t < b ==> #[trigger] counts@[t] == 0usize,
            decreases BIN_COUNT - b,
        {
            counts.push(0);
            b = b + 1;
        }
        proof {
            lemma_bin_counts_len(rs.subrange(0, 0));
            assert(rs.subrange(0, 0) =~= Seq::<PriceChangeRow>::empty());
            assert(forall|t: int|
                0 <= t < BIN_COUNT ==> #[trigger] spec_bin_counts(rs.subrange(0, 0))[t] == 0);
        }
        let n = rows.len();
        let mut total_days: usize = 0;
        let mut i: usize = 0;
        while i < n
            invariant
                rs == rows@,
                n == rs.len(),
                forall|t: int|
                    0 <= t < rs.len() ==> (#[trigger] rs[t]).percent_change_1_day.wf(),
                i <= n,
                total_days == i,
                counts@.len() == BIN_COUNT,
                forall|t: int|
                    0 <= t < BIN_COUNT ==> #[trigger] counts@[t] as int == spec_bin_counts(
                        rs.subrange(0, i as int),
                    )[t],
            decreases n - i,
        {
            total_days = total_days + 1;
            let b = Histogram::bin_index(&rows[i].percent_change_1_day);
            proof {
                lemma_bin_counts_len(rs.subrange(0, i as int));
                lemma_bin_counts_range(rs.subrange(0, i as int));
                assert(rs.subrange(0, i as int + 1).drop_last() =~= rs.subrange(0, i as int));
                assert(rs.subrange(0, i as int + 1).last() == rs[i as int]);
            }
            let c = counts[b];
            counts.set(b, c + 1);
            i = i + 1;
        }
        proof {
            assert(rs.subrange(0, n as int) =~= rs);
            lemma_bin_counts_sum(rs);
            lemma_bin_counts_len(rs);
            assert(counts_view(counts@) =~= spec_bin_counts(rs));
        }
        Histogram { counts, total_days }
    }
}

} // verus!
