//! The trailing windowed moving average over the reverse-chronological
//! series: the row at index `i` averages the current day and up to
//! `window - 1` older days, truncating the window at the oldest row.

use vstd::prelude::*;
use crate::observation::{Observation, all_wf, MAX_CENTS, MAX_ROWS};
use crate::series::{
    sum_int, lemma_sum_subrange_extend, lemma_sum_bounds, rounded_mean, lemma_rounded_mean_bounds,
    lemma_rounded_mean_close,
};

verus! {

/// Default window: 1400 daily rows, standing in for 200 weeks.
pub const MOVING_AVERAGE_DAYS: usize = 1400;

/// Windowed averages of the four price fields at one index, in hundredths,
/// each rounded to the nearest hundredth.
#[derive(Clone, Copy, Debug, PartialEq, Eq, Structural)]
pub struct MovingAverageRow {
    pub open: i64,
    pub high: i64,
    pub low: i64,
    pub close: i64,
}

impl MovingAverageRow {
    /// Averages of well-formed prices are positive and bounded.
    pub open spec fn wf(self) -> bool {
        &&& 0 < self.open <= MAX_CENTS
        &&& 0 < self.high <= MAX_CENTS
        &&& 0 < self.low <= MAX_CENTS
        &&& 0 < self.close <= MAX_CENTS
    }
}

/// The open prices of the series, as mathematical integers.
pub open spec fn opens(s: Seq<Observation>) -> Seq<int> {
    Seq::new(s.len(), |i: int| s[i].open as int)
}

/// The high prices of the series, as mathematical integers.
pub open spec fn highs(s: Seq<Observation>) -> Seq<int> {
    Seq::new(s.len(), |i: int| s[i].high as int)
}

/// The low prices of the series, as mathematical integers.
pub open spec fn lows(s: Seq<Observation>) -> Seq<int> {
    Seq::new(s.len(), |i: int| s[i].low as int)
}

/// The close prices of the series, as mathematical integers.
pub open spec fn closes(s: Seq<Observation>) -> Seq<int> {
    Seq::new(s.len(), |i: int| s[i].close as int)
}

/// Length of the averaging window at index `i` of a series of length `n`:
/// the window is truncated, never padded, near the oldest rows.
pub open spec fn window_len(w: int, n: int, i: int) -> int {
    if w <= n - i {
        w
    } else {
        n - i
    }
}

/// Sum of `vals` over the window that starts at index `i`.
pub open spec fn window_sum(vals: Seq<int>, w: int, i: int) -> int {
    sum_int(vals.subrange(i, i + window_len(w, vals.len() as int, i)))
}

/// The moving-average row at index `i`: each field is the rounded mean of
/// that field over the window.
pub open spec fn spec_moving_average_row(s: Seq<Observation>, w: int, i: int) -> MovingAverageRow
    recommends
        0 <= i < s.len(),
        1 <= w,
{
    let k = window_len(w, s.len() as int, i);
    MovingAverageRow {
        open: rounded_mean(window_sum(opens(s), w, i), k) as i64,
        high: rounded_mean(window_sum(highs(s), w, i), k) as i64,
        low: rounded_mean(window_sum(lows(s), w, i), k) as i64,
        close: rounded_mean(window_sum(closes(s), w, i), k) as i64,
    }
}

/// All moving-average rows of the series at once, by index.
pub open spec fn spec_moving_average_seq(s: Seq<Observation>, w: int) -> Seq<MovingAverageRow> {
    Seq::new(s.len(), |i: int| spec_moving_average_row(s, w, i))
}

/// The sum over `[i, j_end)` of a sequence of values drawn from
/// `[1, MAX_CENTS]` lies between the window length and the window length
/// times `MAX_CENTS`.
proof fn lemma_bounded_window_sum(vals: Seq<int>, i: int, j_end: int)
    requires
        0 <= i <= j_end <= vals.len(),
        forall|t: int| 0 <= t < vals.len() ==> 1 <= #[trigger] vals[t] <= MAX_CENTS,
    ensures
        (j_end - i) * 1 <= sum_int(vals.subrange(i, j_end)) <= (j_end - i) * (MAX_CENTS as int),
{
    let sub = vals.subrange(i, j_end);
    assert forall|t: int| 0 <= t < sub.len() implies 1 <= #[trigger] sub[t] <= MAX_CENTS by {
        assert(sub[t] == vals[i + t]);
    }
    lemma_sum_bounds(sub, 1, MAX_CENTS as int);
}

/// The averaging window at index `i` spans exactly `min(w, n - i)` rows,
/// always at least one, and each stored average is within half a hundredth
/// of the exact arithmetic mean of its window: per field, twice the gap
/// between `k` times the stored average and the exact window sum never
/// exceeds the window length `k`.
pub proof fn lemma_moving_average_window(s: Seq<Observation>, w: int, i: int)
    requires
        all_wf(s),
        s.len() <= MAX_ROWS,
        1 <= w,
        0 <= i < s.len(),
    ensures
        ({
            let n = s.len() as int;
            let k = window_len(w, n, i);
            let row = spec_moving_average_row(s, w, i);
            &&& k == if w <= n - i {
                w
            } else {
                n - i
            }
            &&& 1 <= k <= n - i
            &&& -k < 2 * k * (row.open as int) - 2 * window_sum(opens(s), w, i) <= k
            &&& -k < 2 * k * (row.high as int) - 2 * window_sum(highs(s), w, i) <= k
            &&& -k < 2 * k * (row.low as int) - 2 * window_sum(lows(s), w, i) <= k
            &&& -k < 2 * k * (row.close as int) - 2 * window_sum(closes(s), w, i) <= k
        }),
{
    let n = s.len() as int;
    let k = window_len(w, n, i);
    assert forall|t: int| 0 <= t < s.len() implies 1 <= #[trigger] opens(s)[t] <= MAX_CENTS by {
        assert(s[t].wf());
    }
    assert forall|t: int| 0 <= t < s.len() implies 1 <= #[trigger] highs(s)[t] <= MAX_CENTS by {
        assert(s[t].wf());
    }
    assert forall|t: int| 0 <= t < s.len() implies 1 <= #[trigger] lows(s)[t] <= MAX_CENTS by {
        assert(s[t].wf());
    }
    assert forall|t: int| 0 <= t < s.len() implies 1 <= #[trigger] closes(s)[t] <= MAX_CENTS by {
        assert(s[t].wf());
    }
    lemma_bounded_window_sum(opens(s), i, i + k);
    lemma_bounded_window_sum(highs(s), i, i + k);
    lemma_bounded_window_sum(lows(s), i, i + k);
    lemma_bounded_window_sum(closes(s), i, i + k);
    lemma_rounded_mean_bounds(window_sum(opens(s), w, i), k, 1, MAX_CENTS as int);
    lemma_rounded_mean_bounds(window_sum(highs(s), w, i), k, 1, MAX_CENTS as int);
    lemma_rounded_mean_bounds(window_sum(lows(s), w, i), k, 1, MAX_CENTS as int);
    lemma_rounded_mean_bounds(window_sum(closes(s), w, i), k, 1, MAX_CENTS as int);
    lemma_rounded_mean_close(window_sum(opens(s), w, i), k);
    lemma_rounded_mean_close(window_sum(highs(s), w, i), k);
    lemma_rounded_mean_close(window_sum(lows(s), w, i), k);
    lemma_rounded_mean_close(window_sum(closes(s), w, i), k);
}

/// One `MovingAverageRow` per observation: the row at index `i` averages
/// the window of `min(window, n - i)` rows starting at `i`, per field,
/// rounded to the nearest hundredth.
pub fn moving_averages(data: &Vec<Observation>, window: usize) -> (r: Vec<MovingAverageRow>)
    requires
        all_wf(data@),
        data@.len() <= MAX_ROWS,
        1 <= window,
    ensures
        r@.len() == data@.len(),
        forall|i: int|
            0 <= i < data@.len() ==> #[trigger] r@[i] == spec_moving_average_row(
                data@,
                window as int,
                i,
            ),
        forall|i: int| 0 <= i < data@.len() ==> (#[trigger] r@[i]).wf(),
{
    let ghost s = data@;
    let n = data.len();
    let mut out: Vec<MovingAverageRow> = Vec::new();
    let mut i: usize = 0;
    while i < n
        invariant
            s == data@,
            n == s.len(),
            n <= MAX_ROWS,
            1 <= window,
            all_wf(s),
            i <= n,
            out@.len() == i,
            forall|t: int|
                0 <= t < i ==> #[trigger] out@[t] == spec_moving_average_row(s, window as int, t),
            forall|t: int| 0 <= t < i ==> (#[trigger] out@[t]).wf(),
        decreases n - i,
    {
        let j_size = if window < n - i {
            window
        } else {
            n - i
        };
        let j_end = i + j_size;
        proof {
            assert(j_size as int == window_len(window as int, n as int, i as int));
        }
        let mut sum_open: i64 = 0;
        let mut sum_high: i64 = 0;
        let mut sum_low: i64 = 0;
        let mut sum_close: i64 = 0;
        let mut j: usize = i;
        while j < j_end
            invariant
                s == data@,
                n == s.len(),
                n <= MAX_ROWS,
                all_wf(s),
                i as int <= j as int <= j_end as int,
                j_end <= n,
                sum_open == sum_int(opens(s).subrange(i as int, j as int)),
                sum_high == sum_int(highs(s).subrange(i as int, j as int)),
                sum_low == sum_int(lows(s).subrange(i as int, j as int)),
                sum_close == sum_int(closes(s).subrange(i as int, j as int)),
                0 <= sum_open <= (j - i) * MAX_CENTS,
                0 <= sum_high <= (j - i) * MAX_CENTS,
                0 <= sum_low <= (j - i) * MAX_CENTS,
                0 <= sum_close <= (j - i) * MAX_CENTS,
            decreases j_end - j,
        {
            let o = &data[j];
            proof {
                lemma_sum_subrange_extend(opens(s), i as int, j as int);
                lemma_sum_subrange_extend(highs(s), i as int, j as int);
                lemma_sum_subrange_extend(lows(s), i as int, j as int);
                lemma_sum_subrange_extend(closes(s), i as int, j as int);
                assert(s[j as int].wf());
            }
            sum_open = sum_open + o.open;
            sum_high = sum_high + o.high;
            sum_low = sum_low + o.low;
            sum_close = sum_close + o.close;
            j = j + 1;
        }
        let k = j_size as i64;
        proof {
            assert forall|t: int| 0 <= t < s.len() implies 1 <= #[trigger] opens(s)[t]
                <= MAX_CENTS by {
                assert(s[t].wf());
            }
            assert forall|t: int| 0 <= t < s.len() implies 1 <= #[trigger] highs(s)[t]
                <= MAX_CENTS by {
                assert(s[t].wf());
            }
            assert forall|t: int| 0 <= t < s.len() implies 1 <= #[trigger] lows(s)[t]
                <= MAX_CENTS by {
                assert(s[t].wf());
            }
            assert forall|t: int| 0 <= t < s.len() implies 1 <= #[trigger] closes(s)[t]
                <= MAX_CENTS by {
                assert(s[t].wf());
            }
            lemma_bounded_window_sum(opens(s), i as int, j_end as int);
            lemma_bounded_window_sum(highs(s), i as int, j_end as int);
            lemma_bounded_window_sum(lows(s), i as int, j_end as int);
            lemma_bounded_window_sum(closes(s), i as int, j_end as int);
        }
        let avg_open = (2 * sum_open + k) / (2 * k);
        let avg_high = (2 * sum_high + k) / (2 * k);
        let avg_low = (2 * sum_low + k) / (2 * k);
        let avg_close = (2 * sum_close + k) / (2 * k);
        proof {
            let ki = k as int;
            lemma_rounded_mean_bounds(sum_open as int, ki, 1, MAX_CENTS as int);
            lemma_rounded_mean_bounds(sum_high as int, ki, 1, MAX_CENTS as int);
            lemma_rounded_mean_bounds(sum_low as int, ki, 1, MAX_CENTS as int);
            lemma_rounded_mean_bounds(sum_close as int, ki, 1, MAX_CENTS as int);
        }
        out.push(
            MovingAverageRow { open: avg_open, high: avg_high, low: avg_low, close: avg_close },
        );
        proof {
            assert(out@[i as int] == spec_moving_average_row(s, window as int, i as int));
        }
        i = i + 1;
    }
    out
}

} // verus!
