//! The calendar-year rollup: one row per year spanned by the series, newest
//! year first, matching the newest-first convention of the input.
//!
//! `open` is the open of the row dated exactly January 1 of the year, and
//! `close` the close of the row dated exactly December 31; either is absent
//! when that literal calendar day is missing from the data. `high`, `low`
//! and `volume` aggregate over whatever rows the year has; a year with no
//! rows keeps no sentinel values — its extremes are simply absent and its
//! volume is zero.

use vstd::prelude::*;
use crate::date::Date;
use crate::observation::{Observation, all_wf, years_non_increasing, MAX_CENTS, MAX_ROWS};

verus! {

/// The rollup of one calendar year.
#[derive(Clone, Copy, Debug)]
pub struct YearlySummaryRow {
    pub year: i32,
    pub open: Option<i64>,
    pub high: Option<i64>,
    pub low: Option<i64>,
    pub close: Option<i64>,
    pub volume: i64,
}

/// Whether `d` is exactly January 1 of year `y`.
pub open spec fn is_jan1(d: Date, y: int) -> bool {
    d.year == y && d.month == 1 && d.day == 1
}

/// Whether `d` is exactly December 31 of year `y`.
pub open spec fn is_dec31(d: Date, y: int) -> bool {
    d.year == y && d.month == 12 && d.day == 31
}

/// The open of the first row among the first `n` whose date is exactly
/// January 1 of year `y`, if any.
pub open spec fn year_open_upto(s: Seq<Observation>, y: int, n: int) -> Option<int>
    decreases n,
{
    if n <= 0 {
        None
    } else if year_open_upto(s, y, n - 1) is Some {
        year_open_upto(s, y, n - 1)
    } else if is_jan1(s[n - 1].date, y) {
        Some(s[n - 1].open as int)
    } else {
        None
    }
}

/// The close of the first row among the first `n` whose date is exactly
/// December 31 of year `y`, if any.
pub open spec fn year_close_upto(s: Seq<Observation>, y: int, n: int) -> Option<int>
    decreases n,
{
    if n <= 0 {
        None
    } else if year_close_upto(s, y, n - 1) is Some {
        year_close_upto(s, y, n - 1)
    } else if is_dec31(s[n - 1].date, y) {
        Some(s[n - 1].close as int)
    } else {
        None
    }
}

/// The largest high among the first `n` rows that fall in year `y`, if any.
pub open spec fn year_high_upto(s: Seq<Observation>, y: int, n: int) -> Option<int>
    decreases n,
{
    if n <= 0 {
        None
    } else {
        let rest = year_high_upto(s, y, n - 1);
        if s[n - 1].date.year != y {
            rest
        } else {
            match rest {
                None => Some(s[n - 1].high as int),
                Some(h) => Some(
                    if s[n - 1].high as int > h {
                        s[n - 1].high as int
                    } else {
                        h
                    },
                ),
            }
        }
    }
}

/// The smallest low among the first `n` rows that fall in year `y`, if any.
pub open spec fn year_low_upto(s: Seq<Observation>, y: int, n: int) -> Option<int>
    decreases n,
{
    if n <= 0 {
        None
    } else {
        let rest = year_low_upto(s, y, n - 1);
        if s[n - 1].date.year != y {
            rest
        } else {
            match rest {
                None => Some(s[n - 1].low as int),
                Some(l) => Some(
                    if (s[n - 1].low as int) < l {
                        s[n - 1].low as int
                    } else {
                        l
                    },
                ),
            }
        }
    }
}

/// The summed volume of the first `n` rows that fall in year `y`.
pub open spec fn year_volume_upto(s: Seq<Observation>, y: int, n: int) -> int
    decreases n,
{
    if n <= 0 {
        0
    } else if s[n - 1].date.year == y {
        year_volume_upto(s, y, n - 1) + s[n - 1].volume
    } else {
        year_volume_upto(s, y, n - 1)
    }
}

/// The open looked up for year `y`: an exact January 1 match.
pub open spec fn year_open(s: Seq<Observation>, y: int) -> Option<int> {
    year_open_upto(s, y, s.len() as int)
}

/// The close looked up for year `y`: an exact December 31 match.
pub open spec fn year_close(s: Seq<Observation>, y: int) -> Option<int> {
    year_close_upto(s, y, s.len() as int)
}

/// The highest high of year `y`, absent when the year has no rows.
pub open spec fn year_high(s: Seq<Observation>, y: int) -> Option<int> {
    year_high_upto(s, y, s.len() as int)
}

/// The lowest low of year `y`, absent when the year has no rows.
pub open spec fn year_low(s: Seq<Observation>, y: int) -> Option<int> {
    year_low_upto(s, y, s.len() as int)
}

/// The summed volume of year `y`.
pub open spec fn year_volume(s: Seq<Observation>, y: int) -> int {
    year_volume_upto(s, y, s.len() as int)
}

/// An optional machine value equals an optional mathematical value.
pub open spec fn opt_eq(a: Option<i64>, b: Option<int>) -> bool {
    match (a, b) {
        (Option::None, Option::None) => true,
        (Option::Some(x), Option::Some(v)) => x as int == v,
        _ => false,
    }
}

/// The row carries exactly the year-`y` aggregates of the series.
pub open spec fn spec_year_row_matches(s: Seq<Observation>, y: int, r: YearlySummaryRow) -> bool {
    &&& r.year as int == y
    &&& opt_eq(r.open, year_open(s, y))
    &&& opt_eq(r.close, year_close(s, y))
    &&& opt_eq(r.high, year_high(s, y))
    &&& opt_eq(r.low, year_low(s, y))
    &&& r.volume as int == year_volume(s, y)
}

/// One row per calendar year from the newest year of the series down to the
/// oldest, newest first: `open`/`close` by exact January 1 / December 31
/// lookup, `high`/`low`/`volume` aggregated over the year's rows.
pub fn yearly_summary(data: &Vec<Observation>) -> (r: Vec<YearlySummaryRow>)
    requires
        data@.len() >= 1,
        data@.len() <= MAX_ROWS,
        all_wf(data@),
        years_non_increasing(data@),
    ensures
        ({
            let end = data@[0].date.year as int;
            let start = data@[data@.len() - 1].date.year as int;
            &&& r@.len() == end - start + 1
            &&& forall|k: int| 0 <= k < r@.len() ==> (#[trigger] r@[k]).year as int == end - k
            &&& forall|k: int|
                0 <= k < r@.len() ==> spec_year_row_matches(data@, end - k, #[trigger] r@[k])
        }),
{
    let ghost s = data@;
    let n = data.len();
    let end = data[0].date.year;
    let start = data[n - 1].date.year;
    proof {
        assert(s[0].wf());
        assert(s[n - 1].wf());
        if n > 1 {
            assert(s[n - 1].date.year <= s[0].date.year);
        }
    }
    let count = ((end - start) + 1) as usize;
    let mut out: Vec<YearlySummaryRow> = Vec::new();
    let mut k: usize = 0;
    while k < count
        invariant
            s == data@,
            n == s.len(),
            1 <= n <= MAX_ROWS,
            all_wf(s),
            end == s[0].date.year,
            start == s[n - 1].date.year,
            1 <= start <= end <= 9999,
            count == end - start + 1,
            k <= count,
            out@.len() == k,
            forall|t: int| 0 <= t < k ==> (#[trigger] out@[t]).year as int == end - t,
            forall|t: int|
                0 <= t < k ==> spec_year_row_matches(s, end as int - t, #[trigger] out@[t]),
        decreases count - k,
    {
        let y = end - (k as i32);
        let ghost yi = y as int;
        let mut open_v: Option<i64> = None;
        let mut close_v: Option<i64> = None;
        let mut high_v: Option<i64> = None;
        let mut low_v: Option<i64> = None;
        let mut volume_v: i64 = 0;
        let mut idx: usize = 0;
        while idx < n
            invariant
                s == data@,
                n == s.len(),
                n <= MAX_ROWS,
                all_wf(s),
                yi == y as int,
                idx <= n,
                opt_eq(open_v, year_open_upto(s, yi, idx as int)),
                opt_eq(close_v, year_close_upto(s, yi, idx as int)),
                opt_eq(high_v, year_high_upto(s, yi, idx as int)),
                opt_eq(low_v, year_low_upto(s, yi, idx as int)),
                volume_v == year_volume_upto(s, yi, idx as int),
                0 <= volume_v <= (idx as int) * MAX_CENTS,
            decreases n - idx,
        {
            let o = &data[idx];
            proof {
                assert(s[idx as int].wf());
            }
            if o.date.year == y {
                if open_v.is_none() && o.date.month == 1 && o.date.day == 1 {
                    open_v = Some(o.open);
                }
                if close_v.is_none() && o.date.month == 12 && o.date.day == 31 {
                    close_v = Some(o.close);
                }
                high_v = Some(
                    match high_v {
                        Some(h) => if o.high > h {
                            o.high
                        } else {
                            h
                        },
                        None => o.high,
                    },
                );
                low_v = Some(
                    match low_v {
                        Some(l) => if o.low < l {
                            o.low
                        } else {
                            l
                        },
                        None => o.low,
                    },
                );
                volume_v = volume_v + o.volume;
            }
            idx = idx + 1;
        }
        out.push(
            YearlySummaryRow {
                year: y,
                open: open_v,
                high: high_v,
                low: low_v,
                close: close_v,
                volume: volume_v,
            },
        );
        k = k + 1;
    }
    out
}

} // verus!
