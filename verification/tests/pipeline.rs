use btracker::analytics::AnalyticsRow;
use btracker::date::Date;
use btracker::histogram::Histogram;
use btracker::moving_average::moving_averages;
use btracker::observation::Observation;
use btracker::price_change::{price_changes, Percent};
use btracker::yearly::yearly_summary;

fn obs(
    year: i32,
    month: u8,
    day: u8,
    open: i64,
    high: i64,
    low: i64,
    close: i64,
    volume: i64,
) -> Observation {
    Observation {
        date: Date { year, month, day },
        open,
        high,
        low,
        close,
        volume,
    }
}

fn flat(close: i64) -> Observation {
    obs(2020, 1, 1, close, close, close, close, 0)
}

#[test]
fn moving_average_single_row_is_the_value_itself() {
    let data = vec![flat(12345)];
    let ma = moving_averages(&data, 1400);
    assert_eq!(ma.len(), 1);
    assert_eq!(ma[0].close, 12345);
    assert_eq!(ma[0].open, 12345);
}

#[test]
fn moving_average_window_truncates_for_old_rows() {
    // closes 100.00, 200.00, 300.00 with a window of two rows
    let data = vec![flat(10000), flat(20000), flat(30000)];
    let ma = moving_averages(&data, 2);
    assert_eq!(ma[0].close, 15000);
    assert_eq!(ma[1].close, 25000);
    assert_eq!(ma[2].close, 30000);
}

#[test]
fn moving_average_rounds_to_nearest_hundredth() {
    // mean of 100.00 and 100.01 is 100.005, which rounds up to 100.01
    let data = vec![flat(10000), flat(10001)];
    let ma = moving_averages(&data, 2);
    assert_eq!(ma[0].close, 10001);
    assert_eq!(ma[1].close, 10001);
}

#[test]
fn moving_average_linear_ramp() {
    // 1401 rows, close rising one dollar per index from 100.00 to 1500.00
    let mut data = Vec::new();
    for i in 0..1401i64 {
        data.push(flat(10000 + i * 100));
    }
    let ma = moving_averages(&data, 1400);
    // newest index: mean of the 1400 closes 100.00 .. 1499.00
    assert_eq!(ma[0].close, 79950);
    // second index: mean of the 1400 closes 101.00 .. 1500.00
    assert_eq!(ma[1].close, 80050);
    // oldest index: a single-element window, the value itself
    assert_eq!(ma[1400].close, 150000);
}

#[test]
fn price_change_formulas_two_rows() {
    let newer = obs(2021, 1, 2, 11000, 11500, 10500, 11000, 0);
    let older = obs(2021, 1, 1, 10000, 10000, 10000, 10000, 0);
    let data = vec![newer, older];
    let ma = moving_averages(&data, 1400);
    assert_eq!(ma[0].close, 10500);
    assert_eq!(ma[1].close, 10000);
    let pc = price_changes(&data, &ma);

    assert_eq!(pc[0].dollar_swing_same_day, 1000);
    // 100 * 10 / 110 = 9.0909..., read to two decimals as 9.09
    assert_eq!(pc[0].percent_swing_same_day.hundredths(), 909);
    assert_eq!(pc[0].dollar_change_1_day, 1000);
    // 100 * (110 / 100 - 1) = 10.00
    assert_eq!(pc[0].percent_change_1_day.hundredths(), 1000);
    // lag reaches past the oldest row and clamps to it
    assert_eq!(pc[0].dollar_change_200_week, 1000);
    assert_eq!(pc[0].percent_change_200_week.hundredths(), 1000);
    assert_eq!(pc[0].wma_dollar_change_1_day, 500);
    assert_eq!(pc[0].wma_percent_change_1_day.hundredths(), 500);
}

#[test]
fn oldest_row_compares_to_itself() {
    let data = vec![flat(11000), flat(10000)];
    let ma = moving_averages(&data, 1400);
    let pc = price_changes(&data, &ma);
    let oldest = &pc[1];
    assert_eq!(oldest.dollar_change_1_day, 0);
    assert_eq!(oldest.percent_change_1_day.num, 0);
    assert_eq!(oldest.percent_change_1_day.hundredths(), 0);
    assert_eq!(oldest.dollar_change_200_week, 0);
    assert_eq!(oldest.percent_change_200_week.num, 0);
    assert_eq!(oldest.wma_dollar_change_1_day, 0);
    assert_eq!(oldest.wma_percent_change_1_day.num, 0);
}

#[test]
fn percent_hundredths_rounds_ties_away_from_zero() {
    let p = Percent { num: 5, den: 1000 };
    assert_eq!(p.hundredths(), 1);
    let n = Percent { num: -5, den: 1000 };
    assert_eq!(n.hundredths(), -1);
    let q = Percent { num: 12345, den: 10000 };
    assert_eq!(q.hundredths(), 123);
    let r = Percent { num: -12345, den: 10000 };
    assert_eq!(r.hundredths(), -123);
}

fn histogram_counts(data: Vec<Observation>) -> Histogram {
    let ma = moving_averages(&data, 1400);
    let pc = price_changes(&data, &ma);
    Histogram::new(&pc)
}

#[test]
fn histogram_boundary_change_falls_in_upper_bin() {
    // a one-day change of exactly -15.0% belongs to [-15, -12)
    let h = histogram_counts(vec![flat(8500), flat(10000)]);
    assert_eq!(h.total_days, 2);
    assert_eq!(h.counts[1], 1);
    assert_eq!(h.counts[0], 0);
    // the oldest row compares to itself: 0% lands in [0, 3)
    assert_eq!(h.counts[6], 1);
}

#[test]
fn histogram_change_just_below_boundary_falls_in_open_bin() {
    // -15.01% lies below -15 and belongs to the open bin
    let h = histogram_counts(vec![flat(8499), flat(10000)]);
    assert_eq!(h.counts[0], 1);
    assert_eq!(h.counts[1], 0);
}

#[test]
fn histogram_positive_boundary() {
    // exactly +3.00% belongs to [3, 6)
    let h = histogram_counts(vec![flat(10300), flat(10000)]);
    assert_eq!(h.counts[7], 1);
    assert_eq!(h.counts[6], 1); // the oldest row's 0%
}

#[test]
fn histogram_counts_sum_to_total_for_single_row() {
    let h = histogram_counts(vec![flat(10000)]);
    assert_eq!(h.total_days, 1);
    let sum: usize = h.counts.iter().sum();
    assert_eq!(sum, 1);
    assert_eq!(h.counts[6], 1);
}

#[test]
fn histogram_counts_sum_to_total() {
    let mut data = Vec::new();
    for i in 0..50i64 {
        data.push(flat(10000 + (i % 7) * 400));
    }
    let h = histogram_counts(data);
    assert_eq!(h.total_days, 50);
    let sum: usize = h.counts.iter().sum();
    assert_eq!(sum, 50);
    assert_eq!(h.counts.len(), 12);
}

#[test]
fn histogram_of_no_rows_is_empty() {
    let h = Histogram::new(&Vec::new());
    assert_eq!(h.total_days, 0);
    let sum: usize = h.counts.iter().sum();
    assert_eq!(sum, 0);
}

#[test]
fn yearly_summary_three_years() {
    let data = vec![
        obs(2021, 12, 31, 40000, 42000, 39000, 41000, 100),
        obs(2021, 1, 1, 30000, 31000, 29000, 30500, 200),
        obs(2020, 6, 15, 20000, 25000, 15000, 22000, 300),
        obs(2019, 5, 5, 12000, 16000, 11000, 15000, 400),
        obs(2019, 1, 1, 10000, 13000, 9000, 12000, 500),
    ];
    let ys = yearly_summary(&data);
    assert_eq!(ys.len(), 3);

    assert_eq!(ys[0].year, 2021);
    assert_eq!(ys[0].open, Some(30000));
    assert_eq!(ys[0].close, Some(41000));
    assert_eq!(ys[0].high, Some(42000));
    assert_eq!(ys[0].low, Some(29000));
    assert_eq!(ys[0].volume, 300);

    assert_eq!(ys[1].year, 2020);
    assert_eq!(ys[1].open, None);
    assert_eq!(ys[1].close, None);
    assert_eq!(ys[1].high, Some(25000));
    assert_eq!(ys[1].low, Some(15000));
    assert_eq!(ys[1].volume, 300);

    assert_eq!(ys[2].year, 2019);
    assert_eq!(ys[2].open, Some(10000));
    assert_eq!(ys[2].close, None);
    assert_eq!(ys[2].high, Some(16000));
    assert_eq!(ys[2].low, Some(9000));
    assert_eq!(ys[2].volume, 900);
}

#[test]
fn yearly_summary_fills_empty_years() {
    let data = vec![
        obs(2021, 6, 1, 20000, 21000, 19000, 20500, 10),
        obs(2019, 6, 1, 10000, 11000, 9000, 10500, 20),
    ];
    let ys = yearly_summary(&data);
    assert_eq!(ys.len(), 3);
    assert_eq!(ys[0].year, 2021);
    assert_eq!(ys[1].year, 2020);
    assert_eq!(ys[1].open, None);
    assert_eq!(ys[1].close, None);
    assert_eq!(ys[1].high, None);
    assert_eq!(ys[1].low, None);
    assert_eq!(ys[1].volume, 0);
    assert_eq!(ys[2].year, 2019);
}

#[test]
fn yearly_summary_single_row() {
    let data = vec![obs(2020, 7, 4, 10000, 12000, 9000, 11000, 77)];
    let ys = yearly_summary(&data);
    assert_eq!(ys.len(), 1);
    assert_eq!(ys[0].year, 2020);
    assert_eq!(ys[0].open, None);
    assert_eq!(ys[0].close, None);
    assert_eq!(ys[0].high, Some(12000));
    assert_eq!(ys[0].low, Some(9000));
    assert_eq!(ys[0].volume, 77);
}

#[test]
fn analytics_rows_align_with_their_sources() {
    let data = vec![
        obs(2021, 1, 3, 11000, 11500, 10500, 11000, 5),
        obs(2021, 1, 2, 10000, 10200, 9800, 10100, 6),
        obs(2021, 1, 1, 9000, 9500, 8900, 9400, 7),
    ];
    let ma = moving_averages(&data, 1400);
    let pc = price_changes(&data, &ma);
    let rows = AnalyticsRow::build(&data, 1400);
    assert_eq!(rows.len(), 3);
    for i in 0..3 {
        assert_eq!(rows[i].observation, data[i]);
        assert_eq!(rows[i].moving_averages, ma[i]);
        assert_eq!(rows[i].price_changes, pc[i]);
    }
}

#[test]
fn range_queries_over_analytics_rows() {
    let data = vec![
        obs(2021, 1, 3, 11000, 11500, 10500, 30000, 0),
        obs(2021, 1, 2, 10000, 10200, 9800, 10000, 0),
        obs(2021, 1, 1, 9000, 9500, 8900, 20000, 0),
    ];
    // window of one row: the moving averages equal the raw values
    let rows = AnalyticsRow::build(&data, 1);
    assert_eq!(AnalyticsRow::min_close(&rows), 10000);
    assert_eq!(AnalyticsRow::max_close(&rows), 30000);
    assert_eq!(AnalyticsRow::min_close_wma(&rows), 10000);
    assert_eq!(AnalyticsRow::max_close_wma(&rows), 30000);
    assert_eq!(AnalyticsRow::min_value(&rows), 10000);
    assert_eq!(AnalyticsRow::max_value(&rows), 30000);
    assert_eq!(
        AnalyticsRow::min_date(&rows),
        Date { year: 2021, month: 1, day: 1 }
    );
    assert_eq!(
        AnalyticsRow::max_date(&rows),
        Date { year: 2021, month: 1, day: 3 }
    );
}
