//! The combined analytics dataset: each observation joined with its
//! moving-average row and its price-change row, plus the range queries the
//! chart axes are drawn from.

use vstd::prelude::*;
use crate::date::Date;
use crate::observation::{Observation, all_wf, MAX_ROWS};
use crate::moving_average::{
    MovingAverageRow, moving_averages, spec_moving_average_row, spec_moving_average_seq,
};
use crate::price_change::{PriceChangeRow, price_changes, spec_price_change_row};
use crate::series::{min_int, max_int, lemma_min_int, lemma_max_int};

verus! {

/// One observation with its derived analytics, aligned by index.
#[derive(Clone, Copy, Debug)]
pub struct AnalyticsRow {
    pub observation: Observation,
    pub moving_averages: MovingAverageRow,
    pub price_changes: PriceChangeRow,
}

/// The close prices of the combined rows, as mathematical integers.
pub open spec fn row_closes(rows: Seq<AnalyticsRow>) -> Seq<int> {
    Seq::new(rows.len(), |i: int| rows[i].observation.close as int)
}

/// The moving-average closes of the combined rows, as mathematical
/// integers.
pub open spec fn row_wma_closes(rows: Seq<AnalyticsRow>) -> Seq<int> {
    Seq::new(rows.len(), |i: int| rows[i].moving_averages.close as int)
}

/// The dates of the combined rows.
pub open spec fn row_dates(rows: Seq<AnalyticsRow>) -> Seq<Date> {
    Seq::new(rows.len(), |i: int| rows[i].observation.date)
}

/// The earliest date of a non-empty sequence of dates.
pub open spec fn spec_min_date(ds: Seq<Date>) -> Date
    recommends
        ds.len() > 0,
    decreases ds.len(),
{
    if ds.len() <= 1 {
        ds[0]
    } else {
        let rest = spec_min_date(ds.drop_last());
        if ds.last().spec_lt(rest) {
            ds.last()
        } else {
            rest
        }
    }
}

/// The latest date of a non-empty sequence of dates.
pub open spec fn spec_max_date(ds: Seq<Date>) -> Date
    recommends
        ds.len() > 0,
    decreases ds.len(),
{
    if ds.len() <= 1 {
        ds[0]
    } else {
        let rest = spec_max_date(ds.drop_last());
        if rest.spec_lt(ds.last()) {
            ds.last()
        } else {
            rest
        }
    }
}

/// The earliest date of a non-empty sequence is attained and is no later
/// than any element.
pub proof fn lemma_spec_min_date(ds: Seq<Date>)
    requires
        ds.len() > 0,
    ensures
        forall|i: int|
            0 <= i < ds.len() ==> spec_min_date(ds) == #[trigger] ds[i] || spec_min_date(
                ds,
            ).spec_lt(ds[i]),
        exists|i: int| 0 <= i < ds.len() && spec_min_date(ds) == ds[i],
    decreases ds.len(),
{
    if ds.len() == 1 {
        assert(spec_min_date(ds) == ds[0]);
    } else {
        lemma_spec_min_date(ds.drop_last());
        assert(forall|i: int| 0 <= i < ds.len() - 1 ==> ds.drop_last()[i] == #[trigger] ds[i]);
        let rest = spec_min_date(ds.drop_last());
        if ds.last().spec_lt(rest) {
            assert(spec_min_date(ds) == ds[ds.len() - 1]);
        } else {
            let j = choose|j: int| 0 <= j < ds.len() - 1 && rest == ds.drop_last()[j];
            assert(spec_min_date(ds) == ds[j]);
        }
    }
}

/// The latest date of a non-empty sequence is attained and is no earlier
/// than any element.
pub proof fn lemma_spec_max_date(ds: Seq<Date>)
    requires
        ds.len() > 0,
    ensures
        forall|i: int|
            0 <= i < ds.len() ==> spec_max_date(ds) == #[trigger] ds[i] || (
            #[trigger] ds[i]).spec_lt(spec_max_date(ds)),
        exists|i: int| 0 <= i < ds.len() && spec_max_date(ds) == ds[i],
    decreases ds.len(),
{
    if ds.len() == 1 {
        assert(spec_max_date(ds) == ds[0]);
    } else {
        lemma_spec_max_date(ds.drop_last());
        assert(forall|i: int| 0 <= i < ds.len() - 1 ==> ds.drop_last()[i] == #[trigger] ds[i]);
        let rest = spec_max_date(ds.drop_last());
        if rest.spec_lt(ds.last()) {
            assert(spec_max_date(ds) == ds[ds.len() - 1]);
        } else {
            let j = choose|j: int| 0 <= j < ds.len() - 1 && rest == ds.drop_last()[j];
            assert(spec_max_date(ds) == ds[j]);
        }
    }
}

impl AnalyticsRow {
    /// Joins each observation with its moving-average row (over the given
    /// window) and its price-change row.
    pub fn build(data: &Vec<Observation>, window: usize) -> (r: Vec<AnalyticsRow>)
        requires
            all_wf(data@),
            data@.len() <= MAX_ROWS,
            1 <= window,
        ensures
            r@.len() == data@.len(),
            forall|i: int|
                0 <= i < data@.len() ==> (#[trigger] r@[i]).observation == data@[i],
            forall|i: int|
                0 <= i < data@.len() ==> (#[trigger] r@[i]).moving_averages
                    == spec_moving_average_row(data@, window as int, i),
            forall|i: int|
                0 <= i < data@.len() ==> (#[trigger] r@[i]).price_changes
                    == spec_price_change_row(data@, spec_moving_average_seq(data@, window as int), i),
            forall|i: int| 0 <= i < data@.len() ==> (#[trigger] r@[i]).price_changes.wf(),
    {
        let ghost s = data@;
        let ma = moving_averages(data, window);
        proof {
            assert(ma@ =~= spec_moving_average_seq(s, window as int));
        }
        let pc = price_changes(data, &ma);
        let n = data.len();
        let mut out: Vec<AnalyticsRow> = Vec::new();
        let mut i: usize = 0;
        while i < n
            invariant
                s == data@,
                n == s.len(),
                ma@.len() == n,
                pc@.len() == n,
                ma@ == spec_moving_average_seq(s, window as int),
                forall|t: int|
                    0 <= t < n ==> #[trigger] pc@[t] == spec_price_change_row(s, ma@, t),
                forall|t: int| 0 <= t < n ==> (#[trigger] pc@[t]).wf(),
                i <= n,
                out@.len() == i,
                forall|t: int| 0 <= t < i ==> (#[trigger] out@[t]).observation == s[t],
                forall|t: int|
                    0 <= t < i ==> (#[trigger] out@[t]).moving_averages == ma@[t],
                forall|t: int| 0 <= t < i ==> (#[trigger] out@[t]).price_changes == pc@[t],
            decreases n - i,
        {
            out.push(
                AnalyticsRow {
                    observation: data[i],
                    moving_averages: ma[i],
                    price_changes: pc[i],
                },
            );
            i = i + 1;
        }
        proof {
            assert forall|t: int| 0 <= t < n implies (#[trigger] out@[t]).moving_averages
                == spec_moving_average_row(s, window as int, t) by {
                assert(ma@[t] == spec_moving_average_seq(s, window as int)[t]);
            }
        }
        out
    }

    /// The smallest close of the rows.
    pub fn min_close(data: &Vec<AnalyticsRow>) -> (r: i64)
        requires
            data@.len() >= 1,
        ensures
            r as int == min_int(row_closes(data@)),
            forall|i: int| 0 <= i < data@.len() ==> r <= (#[trigger] data@[i]).observation.close,
            exists|i: int| 0 <= i < data@.len() && r == data@[i].observation.close,
    {
        let n = data.len();
        let mut acc: i64 = data[0].observation.close;
        let mut i: usize = 1;
        while i < n
            invariant
                n == data@.len(),
                1 <= i <= n,
                acc as int == min_int(row_closes(data@).subrange(0, i as int)),
            decreases n - i,
        {
            proof {
                let vals = row_closes(data@);
                assert(vals.subrange(0, i as int + 1).drop_last() =~= vals.subrange(0, i as int));
                assert(vals.subrange(0, i as int + 1).last() == vals[i as int]);
            }
            let c = data[i].observation.close;
            if c < acc {
                acc = c;
            }
            i = i + 1;
        }
        proof {
            assert(row_closes(data@).subrange(0, n as int) =~= row_closes(data@));
            lemma_min_int(row_closes(data@));
            assert forall|t: int| 0 <= t < data@.len() implies acc <= (
            #[trigger] data@[t]).observation.close by {
                assert(row_closes(data@)[t] == data@[t].observation.close as int);
            }
            let j = choose|j: int|
                0 <= j < row_closes(data@).len() && min_int(row_closes(data@)) == row_closes(
                    data@,
                )[j];
            assert(acc == data@[j].observation.close);
        }
        acc
    }

    /// The largest close of the rows.
    pub fn max_close(data: &Vec<AnalyticsRow>) -> (r: i64)
        requires
            data@.len() >= 1,
        ensures
            r as int == max_int(row_closes(data@)),
            forall|i: int| 0 <= i < data@.len() ==> r >= (#[trigger] data@[i]).observation.close,
            exists|i: int| 0 <= i < data@.len() && r == data@[i].observation.close,
    {
        let n = data.len();
        let mut acc: i64 = data[0].observation.close;
        let mut i: usize = 1;
        while i < n
            invariant
                n == data@.len(),
                1 <= i <= n,
                acc as int == max_int(row_closes(data@).subrange(0, i as int)),
            decreases n - i,
        {
            proof {
                let vals = row_closes(data@);
                assert(vals.subrange(0, i as int + 1).drop_last() =~= vals.subrange(0, i as int));
                assert(vals.subrange(0, i as int + 1).last() == vals[i as int]);
            }
            let c = data[i].observation.close;
            if c > acc {
                acc = c;
            }
            i = i + 1;
        }
        proof {
            assert(row_closes(data@).subrange(0, n as int) =~= row_closes(data@));
            lemma_max_int(row_closes(data@));
            assert forall|t: int| 0 <= t < data@.len() implies acc >= (
            #[trigger] data@[t]).observation.close by {
                assert(row_closes(data@)[t] == data@[t].observation.close as int);
            }
            let j = choose|j: int|
                0 <= j < row_closes(data@).len() && max_int(row_closes(data@)) == row_closes(
                    data@,
                )[j];
            assert(acc == data@[j].observation.close);
        }
        acc
    }

    /// The smallest moving-average close of the rows.
    pub fn min_close_wma(data: &Vec<AnalyticsRow>) -> (r: i64)
        requires
            data@.len() >= 1,
        ensures
            r as int == min_int(row_wma_closes(data@)),
            forall|i: int|
                0 <= i < data@.len() ==> r <= (#[trigger] data@[i]).moving_averages.close,
            exists|i: int| 0 <= i < data@.len() && r == data@[i].moving_averages.close,
    {
        let n = data.len();
        let mut acc: i64 = data[0].moving_averages.close;
        let mut i: usize = 1;
        while i < n
            invariant
                n == data@.len(),
                1 <= i <= n,
                acc as int == min_int(row_wma_closes(data@).subrange(0, i as int)),
            decreases n - i,
        {
            proof {
                let vals = row_wma_closes(data@);
                assert(vals.subrange(0, i as int + 1).drop_last() =~= vals.subrange(0, i as int));
                assert(vals.subrange(0, i as int + 1).last() == vals[i as int]);
            }
            let c = data[i].moving_averages.close;
            if c < acc {
                acc = c;
            }
            i = i + 1;
        }
        proof {
            assert(row_wma_closes(data@).subrange(0, n as int) =~= row_wma_closes(data@));
            lemma_min_int(row_wma_closes(data@));
            assert forall|t: int| 0 <= t < data@.len() implies acc <= (
            #[trigger] data@[t]).moving_averages.close by {
                assert(row_wma_closes(data@)[t] == data@[t].moving_averages.close as int);
            }
            let j = choose|j: int|
                0 <= j < row_wma_closes(data@).len() && min_int(row_wma_closes(data@))
                    == row_wma_closes(data@)[j];
            assert(acc == data@[j].moving_averages.close);
        }
        acc
    }

    /// The largest moving-average close of the rows.
    pub fn max_close_wma(data: &Vec<AnalyticsRow>) -> (r: i64)
        requires
            data@.len() >= 1,
        ensures
            r as int == max_int(row_wma_closes(data@)),
            forall|i: int|
                0 <= i < data@.len() ==> r >= (#[trigger] data@[i]).moving_averages.close,
            exists|i: int| 0 <= i < data@.len() && r == data@[i].moving_averages.close,
    {
        let n = data.len();
        let mut acc: i64 = data[0].moving_averages.close;
        let mut i: usize = 1;
        while i < n
            invariant
                n == data@.len(),
                1 <= i <= n,
                acc as int == max_int(row_wma_closes(data@).subrange(0, i as int)),
            decreases n - i,
        {
            proof {
                let vals = row_wma_closes(data@);
                assert(vals.subrange(0, i as int + 1).drop_last() =~= vals.subrange(0, i as int));
                assert(vals.subrange(0, i as int + 1).last() == vals[i as int]);
            }
            let c = data[i].moving_averages.close;
            if c > acc {
                acc = c;
            }
            i = i + 1;
        }
        proof {
            assert(row_wma_closes(data@).subrange(0, n as int) =~= row_wma_closes(data@));
            lemma_max_int(row_wma_closes(data@));
            assert forall|t: int| 0 <= t < data@.len() implies acc >= (
            #[trigger] data@[t]).moving_averages.close by {
                assert(row_wma_closes(data@)[t] == data@[t].moving_averages.close as int);
            }
            let j = choose|j: int|
                0 <= j < row_wma_closes(data@).len() && max_int(row_wma_closes(data@))
                    == row_wma_closes(data@)[j];
            assert(acc == data@[j].moving_averages.close);
        }
        acc
    }

    /// The smallest value either close series takes.
    pub fn min_value(data: &Vec<AnalyticsRow>) -> (r: i64)
        requires
            data@.len() >= 1,
        ensures
            r as int == ({
                let a = min_int(row_closes(data@));
                let b = min_int(row_wma_closes(data@));
                if a < b {
                    a
                } else {
                    b
                }
            }),
    {
        let a = AnalyticsRow::min_close(data);
        let b = AnalyticsRow::min_close_wma(data);
        if a < b {
            a
        } else {
            b
        }
    }

    /// The largest value either close series takes.
    pub fn max_value(data: &Vec<AnalyticsRow>) -> (r: i64)
        requires
            data@.len() >= 1,
        ensures
            r as int == ({
                let a = max_int(row_closes(data@));
                let b = max_int(row_wma_closes(data@));
                if a > b {
                    a
                } else {
                    b
                }
            }),
    {
        let a = AnalyticsRow::max_close(data);
        let b = AnalyticsRow::max_close_wma(data);
        if a > b {
            a
        } else {
            b
        }
    }

    /// The earliest date among the rows.
    pub fn min_date(data: &Vec<AnalyticsRow>) -> (r: Date)
        requires
            data@.len() >= 1,
        ensures
            r == spec_min_date(row_dates(data@)),
            forall|i: int|
                0 <= i < data@.len() ==> r == (#[trigger] data@[i]).observation.date || r.spec_lt(
                    data@[i].observation.date,
                ),
            exists|i: int| 0 <= i < data@.len() && r == data@[i].observation.date,
    {
        let n = data.len();
        let mut acc: Date = data[0].observation.date;
        let mut i: usize = 1;
        while i < n
            invariant
                n == data@.len(),
                1 <= i <= n,
                acc == spec_min_date(row_dates(data@).subrange(0, i as int)),
            decreases n - i,
        {
            proof {
                let vals = row_dates(data@);
                assert(vals.subrange(0, i as int + 1).drop_last() =~= vals.subrange(0, i as int));
                assert(vals.subrange(0, i as int + 1).last() == vals[i as int]);
            }
            let d = data[i].observation.date;
            if d.lt(&acc) {
                acc = d;
            }
            i = i + 1;
        }
        proof {
            assert(row_dates(data@).subrange(0, n as int) =~= row_dates(data@));
            lemma_spec_min_date(row_dates(data@));
            assert forall|t: int| 0 <= t < data@.len() implies acc == (
            #[trigger] data@[t]).observation.date || acc.spec_lt(data@[t].observation.date) by {
                assert(row_dates(data@)[t] == data@[t].observation.date);
            }
            let j = choose|j: int|
                0 <= j < row_dates(data@).len() && spec_min_date(row_dates(data@)) == row_dates(
                    data@,
                )[j];
            assert(acc == data@[j].observation.date);
        }
        acc
    }

    /// The latest date among the rows.
    pub fn max_date(data: &Vec<AnalyticsRow>) -> (r: Date)
        requires
            data@.len() >= 1,
        ensures
            r == spec_max_date(row_dates(data@)),
            forall|i: int|
                0 <= i < data@.len() ==> r == (#[trigger] data@[i]).observation.date || (
                data@[i].observation.date).spec_lt(r),
            exists|i: int| 0 <= i < data@.len() && r == data@[i].observation.date,
    {
        let n = data.len();
        let mut acc: Date = data[0].observation.date;
        let mut i: usize = 1;
        while i < n
            invariant
                n == data@.len(),
                1 <= i <= n,
                acc == spec_max_date(row_dates(data@).subrange(0, i as int)),
            decreases n - i,
        {
            proof {
                let vals = row_dates(data@);
                assert(vals.subrange(0, i as int + 1).drop_last() =~= vals.subrange(0, i as int));
                assert(vals.subrange(0, i as int + 1).last() == vals[i as int]);
            }
            let d = data[i].observation.date;
            if acc.lt(&d) {
                acc = d;
            }
            i = i + 1;
        }
        proof {
            assert(row_dates(data@).subrange(0, n as int) =~= row_dates(data@));
            lemma_spec_max_date(row_dates(data@));
            assert forall|t: int| 0 <= t < data@.len() implies acc == (
            #[trigger] data@[t]).observation.date || (data@[t].observation.date).spec_lt(
                acc,
            ) by {
                assert(row_dates(data@)[t] == data@[t].observation.date);
            }
            let j = choose|j: int|
                0 <= j < row_dates(data@).len() && spec_max_date(row_dates(data@)) == row_dates(
                    data@,
                )[j];
            assert(acc == data@[j].observation.date);
        }
        acc
    }
}

} // verus!
