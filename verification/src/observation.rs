//! The daily observation record and the ordering invariant of a series.
//!
//! Amounts are held in hundredths: a price of 123.45 is the value 12345.
//! The series is reverse-chronological: index 0 holds the most recent day.

use vstd::prelude::*;
use crate::date::Date;

verus! {

/// Largest amount, in hundredths, an observation field may carry.
pub const MAX_CENTS: i64 = 1_000_000_000_000;

/// Largest number of observations a series may hold.
pub const MAX_ROWS: usize = 1_000_000;

/// One day of the series: a calendar date, the four prices and the traded
/// volume, all amounts in hundredths.
#[derive(Clone, Copy, Debug, PartialEq, Eq, Structural)]
pub struct Observation {
    pub date: Date,
    pub open: i64,
    pub high: i64,
    pub low: i64,
    pub close: i64,
    pub volume: i64,
}

impl Observation {
    /// Well-formedness: a valid date, positive bounded prices, and a
    /// non-negative bounded volume.
    pub open spec fn wf(self) -> bool {
        &&& self.date.valid()
        &&& 0 < self.open <= MAX_CENTS
        &&& 0 < self.high <= MAX_CENTS
        &&& 0 < self.low <= MAX_CENTS
        &&& 0 < self.close <= MAX_CENTS
        &&& 0 <= self.volume <= MAX_CENTS
    }
}

/// Every observation of the sequence is well-formed.
pub open spec fn all_wf(s: Seq<Observation>) -> bool {
    forall|i: int| 0 <= i < s.len() ==> (#[trigger] s[i]).wf()
}

/// The sequence is strictly reverse-chronological: later indices hold
/// strictly earlier dates. This implies that all dates are distinct.
pub open spec fn sorted_descending(s: Seq<Observation>) -> bool {
    forall|i: int, j: int| 0 <= i < j < s.len() ==> (#[trigger] s[j]).date.spec_lt(
        (#[trigger] s[i]).date,
    )
}

/// Years never increase along the sequence.
pub open spec fn years_non_increasing(s: Seq<Observation>) -> bool {
    forall|i: int, j: int| 0 <= i < j < s.len() ==> (#[trigger] s[j]).date.year <= (
    #[trigger] s[i]).date.year
}

/// A strictly reverse-chronological sequence has non-increasing years: a
/// series that passed `check_descending` meets the yearly rollup's
/// ordering precondition.
pub proof fn lemma_sorted_descending_years(s: Seq<Observation>)
    requires
        sorted_descending(s),
    ensures
        years_non_increasing(s),
{
    assert forall|i: int, j: int| 0 <= i < j < s.len() implies (#[trigger] s[j]).date.year <= (
    #[trigger] s[i]).date.year by {
        assert(s[j].date.spec_lt(s[i].date));
    }
}

/// If every adjacent pair is strictly descending, the whole sequence is.
pub proof fn lemma_adjacent_descending(s: Seq<Observation>)
    requires
        forall|k: int| 0 <= k < s.len() - 1 ==> (#[trigger] s[k + 1]).date.spec_lt(s[k].date),
    ensures
        sorted_descending(s),
{
    assert forall|i: int, j: int| 0 <= i < j < s.len() implies (#[trigger] s[j]).date.spec_lt(
        (#[trigger] s[i]).date,
    ) by {
        lemma_chain_descending(s, i, j);
    }
}

proof fn lemma_chain_descending(s: Seq<Observation>, i: int, j: int)
    requires
        forall|k: int| 0 <= k < s.len() - 1 ==> (#[trigger] s[k + 1]).date.spec_lt(s[k].date),
        0 <= i < j < s.len(),
    ensures
        s[j].date.spec_lt(s[i].date),
    decreases j - i,
{
    if j == i + 1 {
        assert(s[i + 1].date.spec_lt(s[i].date));
    } else {
        lemma_chain_descending(s, i, j - 1);
        assert(s[(j - 1) + 1].date.spec_lt(s[j - 1].date));
        crate::date::lemma_date_lt_transitive(s[j].date, s[j - 1].date, s[i].date);
    }
}

/// Checks that a series is strictly reverse-chronological: index 0 most
/// recent, dates strictly decreasing from there on. A series that passes
/// also meets the yearly rollup's ordering precondition.
pub fn check_descending(data: &Vec<Observation>) -> (r: bool)
    ensures
        r == sorted_descending(data@),
        r ==> years_non_increasing(data@),
{
    let n = data.len();
    let mut k: usize = 1;
    while k < n
        invariant
            n == data@.len(),
            1 <= k,
            n > 0 ==> k <= n,
            forall|t: int| 0 <= t < k - 1 ==> (#[trigger] data@[t + 1]).date.spec_lt(
                data@[t].date,
            ),
        decreases n - k,
    {
        if !data[k].date.lt(&data[k - 1].date) {
            assert(!sorted_descending(data@));
            return false;
        }
        k = k + 1;
    }
    proof {
        lemma_adjacent_descending(data@);
        lemma_sorted_descending_years(data@);
    }
    true
}

/// If every adjacent pair has non-increasing years, the whole sequence has.
pub proof fn lemma_adjacent_years(s: Seq<Observation>)
    requires
        forall|k: int| 0 <= k < s.len() - 1 ==> (#[trigger] s[k + 1]).date.year <= s[k].date.year,
    ensures
        years_non_increasing(s),
{
    assert forall|i: int, j: int| 0 <= i < j < s.len() implies (#[trigger] s[j]).date.year <= (
    #[trigger] s[i]).date.year by {
        lemma_chain_years(s, i, j);
    }
}

proof fn lemma_chain_years(s: Seq<Observation>, i: int, j: int)
    requires
        forall|k: int| 0 <= k < s.len() - 1 ==> (#[trigger] s[k + 1]).date.year <= s[k].date.year,
        0 <= i < j < s.len(),
    ensures
        s[j].date.year <= s[i].date.year,
    decreases j - i,
{
    if j == i + 1 {
        assert(s[i + 1].date.year <= s[i].date.year);
    } else {
        lemma_chain_years(s, i, j - 1);
        assert(s[(j - 1) + 1].date.year <= s[j - 1].date.year);
    }
}

/// Checks that years never increase along the series.
pub fn check_years_non_increasing(data: &Vec<Observation>) -> (r: bool)
    ensures
        r == years_non_increasing(data@),
{
    let n = data.len();
    let mut k: usize = 1;
    while k < n
        invariant
            n == data@.len(),
            1 <= k,
            n > 0 ==> k <= n,
            forall|t: int| 0 <= t < k - 1 ==> (#[trigger] data@[t + 1]).date.year <= data@[t].date.year,
        decreases n - k,
    {
        if data[k].date.year > data[k - 1].date.year {
            assert(!years_non_increasing(data@));
            return false;
        }
        k = k + 1;
    }
    proof {
        lemma_adjacent_years(data@);
    }
    true
}

/// Checks that every observation of a series is well-formed.
pub fn check_all_wf(data: &Vec<Observation>) -> (r: bool)
    ensures
        r == all_wf(data@),
{
    let n = data.len();
    let mut k: usize = 0;
    while k < n
        invariant
            n == data@.len(),
            k <= n,
            forall|t: int| 0 <= t < k ==> (#[trigger] data@[t]).wf(),
        decreases n - k,
    {
        let o = &data[k];
        let date_ok = Date::new(o.date.year, o.date.month, o.date.day).is_some();
        let prices_ok = 0 < o.open && o.open <= MAX_CENTS && 0 < o.high && o.high <= MAX_CENTS && 0
            < o.low && o.low <= MAX_CENTS && 0 < o.close && o.close <= MAX_CENTS;
        let volume_ok = 0 <= o.volume && o.volume <= MAX_CENTS;
        if !(date_ok && prices_ok && volume_ok) {
            return false;
        }
        k = k + 1;
    }
    true
}

} // verus!
