//! Day-over-day and fixed-lag price changes derived from the raw series and
//! from the moving-average series.
//!
//! Dollar changes are exact differences in hundredths. Percent changes are
//! kept as exact rationals: `100 * (now / prev - 1)` percent is held as the
//! pair `(100 * (now - prev), prev)`, so no precision is lost before a
//! caller asks for a rounded value.

use vstd::prelude::*;
use crate::observation::{Observation, all_wf, MAX_CENTS, MAX_ROWS};
use crate::moving_average::{MovingAverageRow, MOVING_AVERAGE_DAYS};
use crate::series::{rounded_mean, lemma_rounded_mean_bounds};

verus! {

/// Largest magnitude a percent-change numerator may take.
pub const MAX_PERCENT_NUM: i64 = 100 * MAX_CENTS;

/// An exact percent value `num / den`. A change from `prev` to `now` is
/// `100 * (now - prev)` over `den == prev`; a denominator of zero never
/// arises because well-formed prices are positive.
#[derive(Clone, Copy, Debug, PartialEq, Eq, Structural)]
pub struct Percent {
    pub num: i64,
    pub den: i64,
}

impl Percent {
    /// A positive bounded denominator and a bounded numerator.
    pub open spec fn wf(self) -> bool {
        &&& 0 < self.den <= MAX_CENTS
        &&& -MAX_PERCENT_NUM <= self.num <= MAX_PERCENT_NUM
    }

    /// The exact value is strictly below `t` percent.
    pub open spec fn spec_below(self, t: int) -> bool
        recommends
            self.den > 0,
    {
        self.num < t * self.den
    }

    /// Whether the exact value is strictly below `t` percent, decided by
    /// exact cross-multiplication.
    pub fn below(&self, t: i64) -> (r: bool)
        requires
            self.wf(),
            -100 <= t <= 100,
        ensures
            r == self.spec_below(t as int),
    {
        proof {
            assert(-100 * (MAX_CENTS as int) <= (t as int) * (self.den as int) <= 100 * (
            MAX_CENTS as int)) by (nonlinear_arith)
                requires
                    -100 <= t <= 100,
                    0 < self.den <= MAX_CENTS,
            ;
        }
        self.num < t * self.den
    }

    /// The exact value is zero.
    pub open spec fn spec_is_zero(self) -> bool
        recommends
            self.den > 0,
    {
        self.num == 0
    }

    /// The value in hundredths of a percent, rounded to the nearest
    /// hundredth with ties away from zero: the two-decimal reading of the
    /// exact percent value.
    pub open spec fn spec_hundredths(self) -> int
        recommends
            self.den > 0,
    {
        if self.num >= 0 {
            rounded_mean(100 * self.num as int, self.den as int)
        } else {
            -rounded_mean(100 * -(self.num as int), self.den as int)
        }
    }

    /// Rounds the exact percent value to hundredths of a percent, ties
    /// away from zero.
    pub fn hundredths(&self) -> (r: i64)
        requires
            self.wf(),
        ensures
            r as int == self.spec_hundredths(),
    {
        proof {
            if self.num >= 0 {
                lemma_rounded_mean_bounds(
                    100 * self.num as int,
                    self.den as int,
                    0,
                    100 * MAX_PERCENT_NUM as int,
                );
            } else {
                lemma_rounded_mean_bounds(
                    100 * -(self.num as int),
                    self.den as int,
                    0,
                    100 * MAX_PERCENT_NUM as int,
                );
            }
        }
        if self.num >= 0 {
            (2 * (100 * self.num) + self.den) / (2 * self.den)
        } else {
            -((2 * (100 * -self.num) + self.den) / (2 * self.den))
        }
    }
}

/// The derived changes at one index, aligned with the observation there.
#[derive(Clone, Copy, Debug, PartialEq, Eq, Structural)]
pub struct PriceChangeRow {
    pub wma_dollar_change_1_day: i64,
    pub wma_percent_change_1_day: Percent,
    pub dollar_change_200_week: i64,
    pub percent_change_200_week: Percent,
    pub dollar_swing_same_day: i64,
    pub percent_swing_same_day: Percent,
    pub dollar_change_1_day: i64,
    pub percent_change_1_day: Percent,
}

impl PriceChangeRow {
    /// Every percent change has a positive bounded denominator and every
    /// dollar change is bounded.
    pub open spec fn wf(self) -> bool {
        &&& self.wma_percent_change_1_day.wf()
        &&& self.percent_change_200_week.wf()
        &&& self.percent_swing_same_day.wf()
        &&& self.percent_change_1_day.wf()
        &&& -MAX_CENTS <= self.wma_dollar_change_1_day <= MAX_CENTS
        &&& -MAX_CENTS <= self.dollar_change_200_week <= MAX_CENTS
        &&& -MAX_CENTS <= self.dollar_swing_same_day <= MAX_CENTS
        &&& -MAX_CENTS <= self.dollar_change_1_day <= MAX_CENTS
    }
}

/// The dollar change from `prev` to `now`.
pub open spec fn spec_dollar_change(now: i64, prev: i64) -> i64 {
    (now - prev) as i64
}

/// The percent change from `prev` to `now`: exactly
/// `100 * (now / prev - 1)` as the rational `(100 * (now - prev)) / prev`.
pub open spec fn spec_percent_change(now: i64, prev: i64) -> Percent {
    Percent { num: (100 * (now - prev)) as i64, den: prev }
}

/// The clamped comparison index: `lag` rows older, or the oldest row when
/// fewer remain. The oldest row therefore compares to itself.
pub open spec fn lag_index(n: int, i: int, lag: int) -> int {
    if i + lag <= n - 1 {
        i + lag
    } else {
        n - 1
    }
}

/// The derived changes at index `i` of the series: same-day swing against
/// the day's close, one-day and 200-week changes of the close, and the
/// one-day change of the moving-average close, each in dollars and percent.
pub open spec fn spec_price_change_row(
    s: Seq<Observation>,
    ma: Seq<MovingAverageRow>,
    i: int,
) -> PriceChangeRow
    recommends
        0 <= i < s.len(),
        ma.len() == s.len(),
{
    let n = s.len() as int;
    let j1 = lag_index(n, i, 1);
    let j200 = lag_index(n, i, MOVING_AVERAGE_DAYS as int);
    PriceChangeRow {
        wma_dollar_change_1_day: spec_dollar_change(ma[i].close, ma[j1].close),
        wma_percent_change_1_day: spec_percent_change(ma[i].close, ma[j1].close),
        dollar_change_200_week: spec_dollar_change(s[i].close, s[j200].close),
        percent_change_200_week: spec_percent_change(s[i].close, s[j200].close),
        dollar_swing_same_day: (s[i].high - s[i].low) as i64,
        percent_swing_same_day: Percent {
            num: (100 * (s[i].high - s[i].low)) as i64,
            den: s[i].close,
        },
        dollar_change_1_day: spec_dollar_change(s[i].close, s[j1].close),
        percent_change_1_day: spec_percent_change(s[i].close, s[j1].close),
    }
}

/// One `PriceChangeRow` per observation, computed from the series and its
/// moving averages.
pub fn price_changes(data: &Vec<Observation>, ma: &Vec<MovingAverageRow>) -> (r: Vec<
    PriceChangeRow,
>)
    requires
        all_wf(data@),
        data@.len() <= MAX_ROWS,
        ma@.len() == data@.len(),
        forall|i: int| 0 <= i < ma@.len() ==> (#[trigger] ma@[i]).wf(),
    ensures
        r@.len() == data@.len(),
        forall|i: int|
            0 <= i < data@.len() ==> #[trigger] r@[i] == spec_price_change_row(data@, ma@, i),
        forall|i: int| 0 <= i < data@.len() ==> (#[trigger] r@[i]).wf(),
{
    let ghost s = data@;
    let ghost m = ma@;
    let n = data.len();
    let mut out: Vec<PriceChangeRow> = Vec::new();
    let mut i: usize = 0;
    while i < n
        invariant
            s == data@,
            m == ma@,
            n == s.len(),
            m.len() == n,
            n <= MAX_ROWS,
            all_wf(s),
            forall|t: int| 0 <= t < m.len() ==> (#[trigger] m[t]).wf(),
            i <= n,
            out@.len() == i,
            forall|t: int| 0 <= t < i ==> #[trigger] out@[t] == spec_price_change_row(s, m, t),
            forall|t: int| 0 <= t < i ==> (#[trigger] out@[t]).wf(),
        decreases n - i,
    {
        let j1 = if i + 1 <= n - 1 {
            i + 1
        } else {
            n - 1
        };
        let j200 = if i + MOVING_AVERAGE_DAYS <= n - 1 {
            i + MOVING_AVERAGE_DAYS
        } else {
            n - 1
        };
        proof {
            assert(j1 as int == lag_index(n as int, i as int, 1));
            assert(j200 as int == lag_index(n as int, i as int, MOVING_AVERAGE_DAYS as int));
            assert(s[i as int].wf());
            assert(s[j1 as int].wf());
            assert(s[j200 as int].wf());
            assert(m[i as int].wf());
            assert(m[j1 as int].wf());
        }
        let o = &data[i];
        let prev1 = data[j1].close;
        let prev200 = data[j200].close;
        let wma_now = ma[i].close;
        let wma_prev = ma[j1].close;
        let row = PriceChangeRow {
            wma_dollar_change_1_day: wma_now - wma_prev,
            wma_percent_change_1_day: Percent { num: 100 * (wma_now - wma_prev), den: wma_prev },
            dollar_change_200_week: o.close - prev200,
            percent_change_200_week: Percent { num: 100 * (o.close - prev200), den: prev200 },
            dollar_swing_same_day: o.high - o.low,
            percent_swing_same_day: Percent { num: 100 * (o.high - o.low), den: o.close },
            dollar_change_1_day: o.close - prev1,
            percent_change_1_day: Percent { num: 100 * (o.close - prev1), den: prev1 },
        };
        out.push(row);
        proof {
            assert(out@[i as int] == spec_price_change_row(s, m, i as int));
        }
        i = i + 1;
    }
    out
}

/// For the oldest row the clamped comparison index is the row itself, so
/// every change there is exactly zero, in dollars and in percent.
pub proof fn lemma_oldest_row_changes_zero(s: Seq<Observation>, ma: Seq<MovingAverageRow>)
    requires
        s.len() >= 1,
        ma.len() == s.len(),
    ensures
        ({
            let row = spec_price_change_row(s, ma, s.len() - 1);
            &&& row.dollar_change_1_day == 0
            &&& row.percent_change_1_day.spec_is_zero()
            &&& row.dollar_change_200_week == 0
            &&& row.percent_change_200_week.spec_is_zero()
            &&& row.wma_dollar_change_1_day == 0
            &&& row.wma_percent_change_1_day.spec_is_zero()
        }),
{
    let n = s.len() as int;
    assert(lag_index(n, n - 1, 1) == n - 1);
    assert(lag_index(n, n - 1, MOVING_AVERAGE_DAYS as int) == n - 1);
}

} // verus!
