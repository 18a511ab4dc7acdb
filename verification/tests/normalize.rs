use btracker::date::Date;
use btracker::observation::{
    check_all_wf, check_descending, check_years_non_increasing, Observation,
};
use btracker::parse::ParseError;

fn field(s: &str) -> Vec<u8> {
    s.as_bytes().to_vec()
}

fn record(fields: &[&str]) -> Vec<Vec<u8>> {
    fields.iter().map(|s| field(s)).collect()
}

fn good_record() -> Vec<Vec<u8>> {
    record(&[
        "Jan",
        "5",
        "2021",
        "16,923.90",
        "17,000.00",
        "16,800.50",
        "16,950.25",
        "unused",
        "123,456",
    ])
}

#[test]
fn normalizes_a_full_record() {
    let o = Observation::from_fields(&good_record()).unwrap();
    assert_eq!(o.date, Date { year: 2021, month: 1, day: 5 });
    assert_eq!(o.open, 1_692_390);
    assert_eq!(o.high, 1_700_000);
    assert_eq!(o.low, 1_680_050);
    assert_eq!(o.close, 1_695_025);
    assert_eq!(o.volume, 12_345_600);
}

#[test]
fn accepts_every_month_abbreviation() {
    let months = [
        "Jan", "Feb", "Mar", "Apr", "May", "Jun", "Jul", "Aug", "Sep", "Oct", "Nov", "Dec",
    ];
    for (i, m) in months.iter().enumerate() {
        let mut r = good_record();
        r[0] = field(m);
        let o = Observation::from_fields(&r).unwrap();
        assert_eq!(o.date.month as usize, i + 1);
    }
}

#[test]
fn accepts_one_fraction_digit_and_no_fraction() {
    let mut r = good_record();
    r[3] = field("7.5");
    r[4] = field("12");
    let o = Observation::from_fields(&r).unwrap();
    assert_eq!(o.open, 750);
    assert_eq!(o.high, 1200);
}

#[test]
fn accepts_zero_volume() {
    let mut r = good_record();
    r[8] = field("0");
    let o = Observation::from_fields(&r).unwrap();
    assert_eq!(o.volume, 0);
}

#[test]
fn rejects_short_records() {
    let r = record(&["Jan", "5", "2021", "1", "1", "1", "1", "x"]);
    assert_eq!(Observation::from_fields(&r), Err(ParseError::MissingField));
}

#[test]
fn rejects_unknown_months() {
    let mut r = good_record();
    r[0] = field("Foo");
    assert_eq!(Observation::from_fields(&r), Err(ParseError::BadMonth));
    r[0] = field("January");
    assert_eq!(Observation::from_fields(&r), Err(ParseError::BadMonth));
}

#[test]
fn rejects_bad_days() {
    let mut r = good_record();
    r[1] = field("123");
    assert_eq!(Observation::from_fields(&r), Err(ParseError::BadDay));
    r[1] = field("x");
    assert_eq!(Observation::from_fields(&r), Err(ParseError::BadDay));
}

#[test]
fn rejects_bad_years() {
    let mut r = good_record();
    r[2] = field("21");
    assert_eq!(Observation::from_fields(&r), Err(ParseError::BadYear));
    r[2] = field("20x1");
    assert_eq!(Observation::from_fields(&r), Err(ParseError::BadYear));
}

#[test]
fn rejects_impossible_dates() {
    let mut r = good_record();
    r[0] = field("Feb");
    r[1] = field("30");
    assert_eq!(Observation::from_fields(&r), Err(ParseError::BadDate));
    r[1] = field("0");
    assert_eq!(Observation::from_fields(&r), Err(ParseError::BadDate));
}

#[test]
fn rejects_malformed_amounts() {
    let cases = ["", ".", "12.345", "5.", "1a2", "12..5", "-5"];
    for c in cases.iter() {
        let mut r = good_record();
        r[3] = field(c);
        assert_eq!(
            Observation::from_fields(&r),
            Err(ParseError::BadAmount),
            "case {c:?}"
        );
    }
}

#[test]
fn rejects_amounts_out_of_range() {
    let mut r = good_record();
    r[3] = field("99,999,999,999,999");
    assert_eq!(
        Observation::from_fields(&r),
        Err(ParseError::AmountOutOfRange)
    );
    // a zero price is out of range, though a zero volume is not
    let mut z = good_record();
    z[6] = field("0.00");
    assert_eq!(
        Observation::from_fields(&z),
        Err(ParseError::AmountOutOfRange)
    );
}

#[test]
fn leap_years_decide_date_validity() {
    assert!(Date::new(2020, 2, 29).is_some());
    assert!(Date::new(2021, 2, 29).is_none());
    assert!(Date::new(2000, 2, 29).is_some());
    assert!(Date::new(1900, 2, 29).is_none());
    assert!(Date::new(2021, 4, 31).is_none());
    assert!(Date::new(2021, 12, 31).is_some());
}

fn dated(year: i32, month: u8, day: u8) -> Observation {
    Observation {
        date: Date { year, month, day },
        open: 100,
        high: 100,
        low: 100,
        close: 100,
        volume: 0,
    }
}

#[test]
fn descending_check_accepts_strictly_newer_first() {
    let data = vec![dated(2021, 1, 2), dated(2021, 1, 1), dated(2020, 12, 31)];
    assert!(check_descending(&data));
    assert!(check_years_non_increasing(&data));
}

#[test]
fn descending_check_rejects_out_of_order_rows() {
    let swapped = vec![dated(2021, 1, 1), dated(2021, 1, 2)];
    assert!(!check_descending(&swapped));
    let duplicated = vec![dated(2021, 1, 1), dated(2021, 1, 1)];
    assert!(!check_descending(&duplicated));
    let years = vec![dated(2020, 6, 1), dated(2021, 6, 1)];
    assert!(!check_years_non_increasing(&years));
}

#[test]
fn well_formedness_check_rejects_zero_prices() {
    let mut bad = dated(2021, 1, 1);
    bad.close = 0;
    assert!(!check_all_wf(&vec![bad]));
    assert!(check_all_wf(&vec![dated(2021, 1, 1)]));
}
