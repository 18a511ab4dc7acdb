//! The record normalizer: turns the raw textual fields of one input record
//! into a typed observation, or reports exactly why it cannot.
//!
//! A record's fields are, in order: a three-letter month abbreviation, the
//! day, the four-digit year, then open, high, low and close; field seven is
//! an unused column, and field eight is the volume. Amount fields may carry
//! comma separators, which are ignored wherever they stand, and may end in
//! a point with one or two fraction digits; amounts are read exactly, in
//! hundredths.

use vstd::prelude::*;
use crate::date::Date;
use crate::observation::{Observation, MAX_CENTS};

verus! {

/// Why a record was rejected.
#[derive(Clone, Copy, Debug, PartialEq, Eq, Structural)]
pub enum ParseError {
    /// The record has fewer than nine fields.
    MissingField,
    /// The month field is not one of the twelve abbreviations.
    BadMonth,
    /// The day field is not one or two digits.
    BadDay,
    /// The year field is not four digits.
    BadYear,
    /// The three date fields name no valid calendar day.
    BadDate,
    /// An amount field is not digits with optional commas and an optional
    /// point with one or two fraction digits.
    BadAmount,
    /// An amount field is well-formed but outside the accepted range.
    AmountOutOfRange,
}

/// Whether `c` is an ASCII digit.
pub open spec fn is_digit(c: u8) -> bool {
    48 <= c <= 57
}

/// The value of an ASCII digit.
pub open spec fn digit_val(c: u8) -> int {
    c as int - 48
}

/// Every byte of `s` is an ASCII digit.
pub open spec fn all_digits(s: Seq<u8>) -> bool {
    forall|i: int| 0 <= i < s.len() ==> is_digit(#[trigger] s[i])
}

/// The number a digit string writes, most significant digit first.
pub open spec fn digits_value(s: Seq<u8>) -> int
    decreases s.len(),
{
    if s.len() == 0 {
        0
    } else {
        digits_value(s.drop_last()) * 10 + digit_val(s.last())
    }
}

/// `s` with every comma removed.
pub open spec fn strip_commas(s: Seq<u8>) -> Seq<u8>
    decreases s.len(),
{
    if s.len() == 0 {
        Seq::empty()
    } else {
        let rest = strip_commas(s.drop_last());
        if s.last() == 44 {
            rest
        } else {
            rest.push(s.last())
        }
    }
}

/// The index of the first point in `s`, or `s.len()` when there is none.
pub open spec fn dot_pos(s: Seq<u8>) -> int
    decreases s.len(),
{
    if s.len() == 0 {
        0
    } else if s[0] == 46 {
        0
    } else {
        1 + dot_pos(s.drop_first())
    }
}

/// `dot_pos` names the first point: everything before it differs from a
/// point, and it is a point unless the string has none.
pub proof fn lemma_dot_pos(s: Seq<u8>)
    ensures
        0 <= dot_pos(s) <= s.len(),
        dot_pos(s) < s.len() ==> s[dot_pos(s)] == 46,
        forall|k: int| 0 <= k < dot_pos(s) ==> s[k] != 46,
    decreases s.len(),
{
    if s.len() == 0 {
    } else if s[0] == 46 {
    } else {
        lemma_dot_pos(s.drop_first());
        if dot_pos(s) < s.len() {
            assert(s[dot_pos(s)] == s.drop_first()[dot_pos(s.drop_first())]);
        }
        assert forall|k: int| 0 <= k < dot_pos(s) implies s[k] != 46 by {
            if k > 0 {
                assert(s[k] == s.drop_first()[k - 1]);
            }
        }
    }
}

/// A digit string writes a non-negative number.
pub proof fn lemma_digits_value_nonneg(s: Seq<u8>)
    requires
        all_digits(s),
    ensures
        digits_value(s) >= 0,
    decreases s.len(),
{
    if s.len() > 0 {
        assert forall|i: int| 0 <= i < s.drop_last().len() implies is_digit(
            #[trigger] s.drop_last()[i],
        ) by {
            assert(s.drop_last()[i] == s[i]);
        }
        lemma_digits_value_nonneg(s.drop_last());
    }
}

/// A digit string writes at least what any of its prefixes writes.
pub proof fn lemma_digits_value_prefix_le(s: Seq<u8>, j: int)
    requires
        all_digits(s),
        0 <= j <= s.len(),
    ensures
        digits_value(s.subrange(0, j)) <= digits_value(s),
    decreases s.len(),
{
    if j == s.len() {
        assert(s.subrange(0, j) =~= s);
    } else {
        assert forall|i: int| 0 <= i < s.drop_last().len() implies is_digit(
            #[trigger] s.drop_last()[i],
        ) by {
            assert(s.drop_last()[i] == s[i]);
        }
        lemma_digits_value_prefix_le(s.drop_last(), j);
        assert(s.drop_last().subrange(0, j) =~= s.subrange(0, j));
        lemma_digits_value_nonneg(s.drop_last());
    }
}

/// The value of a one-digit string.
pub proof fn lemma_digits_value_1(s: Seq<u8>)
    requires
        s.len() == 1,
    ensures
        digits_value(s) == digit_val(s[0]),
{
    assert(s.drop_last() =~= Seq::<u8>::empty());
    assert(digits_value(s.drop_last()) == 0);
}

/// The value of a two-digit string.
pub proof fn lemma_digits_value_2(s: Seq<u8>)
    requires
        s.len() == 2,
    ensures
        digits_value(s) == digit_val(s[0]) * 10 + digit_val(s[1]),
{
    assert(s.drop_last() =~= seq![s[0]]);
    lemma_digits_value_1(s.drop_last());
}

/// The value of a three-digit string.
pub proof fn lemma_digits_value_3(s: Seq<u8>)
    requires
        s.len() == 3,
    ensures
        digits_value(s) == (digit_val(s[0]) * 10 + digit_val(s[1])) * 10 + digit_val(s[2]),
{
    assert(s.drop_last() =~= seq![s[0], s[1]]);
    lemma_digits_value_2(s.drop_last());
}

/// The value of a four-digit string.
pub proof fn lemma_digits_value_4(s: Seq<u8>)
    requires
        s.len() == 4,
    ensures
        digits_value(s) == ((digit_val(s[0]) * 10 + digit_val(s[1])) * 10 + digit_val(s[2])) * 10
            + digit_val(s[3]),
{
    assert(s.drop_last() =~= seq![s[0], s[1], s[2]]);
    lemma_digits_value_3(s.drop_last());
}

/// The amount in hundredths that a field writes: after comma removal, one
/// or more digits, optionally followed by a point and one or two fraction
/// digits. Anything else writes nothing.
pub open spec fn spec_amount(s: Seq<u8>) -> Option<int> {
    let t = strip_commas(s);
    let p = dot_pos(t);
    let ip = t.subrange(0, p);
    if p == 0 || !all_digits(ip) {
        None
    } else if p == t.len() {
        Some(digits_value(ip) * 100)
    } else {
        let fp = t.subrange(p + 1, t.len() as int);
        if fp.len() == 1 && all_digits(fp) {
            Some(digits_value(ip) * 100 + digit_val(fp[0]) * 10)
        } else if fp.len() == 2 && all_digits(fp) {
            Some(digits_value(ip) * 100 + digits_value(fp))
        } else {
            None
        }
    }
}

/// A well-formed amount is non-negative.
pub proof fn lemma_spec_amount_nonneg(s: Seq<u8>)
    ensures
        spec_amount(s) matches Some(v) ==> v >= 0,
{
    let t = strip_commas(s);
    let p = dot_pos(t);
    let ip = t.subrange(0, p);
    lemma_dot_pos(t);
    if spec_amount(s) is Some {
        lemma_digits_value_nonneg(ip);
        if p < t.len() {
            let fp = t.subrange(p + 1, t.len() as int);
            if fp.len() == 1 || fp.len() == 2 {
                if all_digits(fp) {
                    lemma_digits_value_nonneg(fp);
                }
            }
        }
    }
}

/// Reads an amount field into hundredths: `Ok` exactly when the field is
/// well-formed and its value is at most `MAX_CENTS`, `BadAmount` exactly
/// when it is malformed, and `AmountOutOfRange` exactly when it is
/// well-formed but too large.
pub fn parse_amount(field: &Vec<u8>) -> (r: Result<i64, ParseError>)
    ensures
        ({
            match spec_amount(field@) {
                Option::None => r == Err::<i64, ParseError>(ParseError::BadAmount),
                Option::Some(v) => if v <= MAX_CENTS {
                    r == Ok::<i64, ParseError>(v as i64)
                } else {
                    r == Err::<i64, ParseError>(ParseError::AmountOutOfRange)
                },
            }
        }),
{
    let ghost sq = field@;
    let n = field.len();
    let mut t: Vec<u8> = Vec::new();
    let mut i: usize = 0;
    while i < n
        invariant
            sq == field@,
            n == sq.len(),
            i <= n,
            t@ == strip_commas(sq.subrange(0, i as int)),
        decreases n - i,
    {
        proof {
            assert(sq.subrange(0, i as int + 1).drop_last() =~= sq.subrange(0, i as int));
        }
        let c = field[i];
        if c != 44 {
            t.push(c);
        }
        i = i + 1;
    }
    proof {
        assert(sq.subrange(0, n as int) =~= sq);
    }
    let ghost tq = t@;
    let tn = t.len();

    let mut p: usize = 0;
    while p < tn && t[p] != 46
        invariant
            tq == t@,
            tn == tq.len(),
            p <= tn,
            forall|k: int| 0 <= k < p ==> tq[k] != 46,
        decreases tn - p,
    {
        p = p + 1;
    }
    proof {
        lemma_dot_pos(tq);
        assert(p as int == dot_pos(tq));
    }
    let ghost ip = tq.subrange(0, p as int);

    if p == 0 {
        return Err(ParseError::BadAmount);
    }
    let mut j: usize = 0;
    while j < p
        invariant
            sq == field@,
            tq == t@,
            tq == strip_commas(sq),
            tn == tq.len(),
            p as int == dot_pos(tq),
            1 <= p <= tn,
            j <= p,
            forall|k: int| 0 <= k < j ==> is_digit(#[trigger] tq[k]),
        decreases p - j,
    {
        let c = t[j];
        if c < 48 || c > 57 {
            proof {
                assert(!is_digit(tq[j as int]));
                assert(tq.subrange(0, p as int)[j as int] == tq[j as int]);
                assert(!all_digits(tq.subrange(0, p as int)));
            }
            return Err(ParseError::BadAmount);
        }
        j = j + 1;
    }
    proof {
        assert forall|k: int| 0 <= k < ip.len() implies is_digit(#[trigger] ip[k]) by {
            assert(ip[k] == tq[k]);
        }
    }

    let mut frac: i64 = 0;
    if p < tn {
        let fl = tn - p - 1;
        let ghost fp = tq.subrange(p as int + 1, tn as int);
        if fl == 1 {
            let c = t[p + 1];
            if c < 48 || c > 57 {
                proof {
                    assert(fp[0] == tq[p as int + 1]);
                    assert(!all_digits(fp));
                }
                return Err(ParseError::BadAmount);
            }
            frac = ((c - 48) as i64) * 10;
            proof {
                assert(fp[0] == tq[p as int + 1]);
                assert(frac as int == digit_val(fp[0]) * 10);
            }
        } else if fl == 2 {
            let c0 = t[p + 1];
            let c1 = t[p + 2];
            if c0 < 48 || c0 > 57 || c1 < 48 || c1 > 57 {
                proof {
                    assert(fp[0] == tq[p as int + 1]);
                    assert(fp[1] == tq[p as int + 2]);
                    assert(!all_digits(fp));
                }
                return Err(ParseError::BadAmount);
            }
            frac = ((c0 - 48) as i64) * 10 + ((c1 - 48) as i64);
            proof {
                assert(fp[0] == tq[p as int + 1]);
                assert(fp[1] == tq[p as int + 2]);
                lemma_digits_value_2(fp);
                assert(frac as int == digits_value(fp));
            }
        } else {
            proof {
                assert(fp.len() != 1 && fp.len() != 2);
            }
            return Err(ParseError::BadAmount);
        }
    }

    let mut acc: i64 = 0;
    let mut j2: usize = 0;
    while j2 < p
        invariant
            sq == field@,
            tq == t@,
            tn == tq.len(),
            p <= tn,
            ip == tq.subrange(0, p as int),
            all_digits(ip),
            p >= 1,
            j2 <= p,
            acc == digits_value(tq.subrange(0, j2 as int)),
            0 <= acc <= 10_000_000_000i64,
            spec_amount(sq) is Some,
            frac as int == (match spec_amount(sq) {
                Option::Some(v) => v - digits_value(ip) * 100,
                Option::None => 0,
            }),
            0 <= frac <= 99,
        decreases p - j2,
    {
        proof {
            assert(tq.subrange(0, j2 as int + 1).drop_last() =~= tq.subrange(0, j2 as int));
            assert(tq.subrange(0, j2 as int + 1).last() == tq[j2 as int]);
            assert(is_digit(ip[j2 as int]) && ip[j2 as int] == tq[j2 as int]);
        }
        let c = t[j2];
        let next: i64 = acc * 10 + ((c - 48) as i64);
        if next > 10_000_000_000 {
            proof {
                lemma_digits_value_prefix_le(ip, j2 as int + 1);
                assert(ip.subrange(0, j2 as int + 1) =~= tq.subrange(0, j2 as int + 1));
                assert(digits_value(ip) >= next);
                assert(digits_value(ip) * 100 > MAX_CENTS + 99) by (nonlinear_arith)
                    requires
                        digits_value(ip) > 10_000_000_000int,
                        MAX_CENTS == 1_000_000_000_000i64,
                ;
            }
            return Err(ParseError::AmountOutOfRange);
        }
        acc = next;
        j2 = j2 + 1;
    }
    proof {
        assert(tq.subrange(0, p as int) == ip);
        assert(acc as int == digits_value(ip));
    }
    let value: i64 = acc * 100 + frac;
    if value > MAX_CENTS {
        Err(ParseError::AmountOutOfRange)
    } else {
        Ok(value)
    }
}

/// The bytes of the abbreviation of month `m`.
pub open spec fn month_abbrev(m: int) -> Seq<u8> {
    if m == 1 {
        seq![74u8, 97u8, 110u8]
    } else if m == 2 {
        seq![70u8, 101u8, 98u8]
    } else if m == 3 {
        seq![77u8, 97u8, 114u8]
    } else if m == 4 {
        seq![65u8, 112u8, 114u8]
    } else if m == 5 {
        seq![77u8, 97u8, 121u8]
    } else if m == 6 {
        seq![74u8, 117u8, 110u8]
    } else if m == 7 {
        seq![74u8, 117u8, 108u8]
    } else if m == 8 {
        seq![65u8, 117u8, 103u8]
    } else if m == 9 {
        seq![83u8, 101u8, 112u8]
    } else if m == 10 {
        seq![79u8, 99u8, 116u8]
    } else if m == 11 {
        seq![78u8, 111u8, 118u8]
    } else if m == 12 {
        seq![68u8, 101u8, 99u8]
    } else {
        Seq::empty()
    }
}

/// The month a field names, by its three-letter abbreviation.
pub open spec fn spec_month(s: Seq<u8>) -> Option<int> {
    if s == month_abbrev(1) {
        Some(1)
    } else if s == month_abbrev(2) {
        Some(2)
    } else if s == month_abbrev(3) {
        Some(3)
    } else if s == month_abbrev(4) {
        Some(4)
    } else if s == month_abbrev(5) {
        Some(5)
    } else if s == month_abbrev(6) {
        Some(6)
    } else if s == month_abbrev(7) {
        Some(7)
    } else if s == month_abbrev(8) {
        Some(8)
    } else if s == month_abbrev(9) {
        Some(9)
    } else if s == month_abbrev(10) {
        Some(10)
    } else if s == month_abbrev(11) {
        Some(11)
    } else if s == month_abbrev(12) {
        Some(12)
    } else {
        None
    }
}

/// Reads a month field: `Ok` with the month number exactly when the field
/// is one of the twelve abbreviations.
pub fn parse_month(field: &Vec<u8>) -> (r: Result<u8, ParseError>)
    ensures
        ({
            match spec_month(field@) {
                Option::None => r == Err::<u8, ParseError>(ParseError::BadMonth),
                Option::Some(m) => r == Ok::<u8, ParseError>(m as u8),
            }
        }),
{
    let ghost sq = field@;
    if field.len() != 3 {
        proof {
            assert forall|m: int| 1 <= m <= 12 implies sq != month_abbrev(m) by {
                assert(month_abbrev(m).len() == 3);
            }
        }
        return Err(ParseError::BadMonth);
    }
    let a = field[0];
    let b = field[1];
    let c = field[2];
    let r: Result<u8, ParseError> = if a == 74 && b == 97 && c == 110 {
        proof {
            assert(sq =~= month_abbrev(1));
        }
        Ok(1)
    } else if a == 70 && b == 101 && c == 98 {
        proof {
            assert(sq =~= month_abbrev(2));
        }
        Ok(2)
    } else if a == 77 && b == 97 && c == 114 {
        proof {
            assert(sq =~= month_abbrev(3));
        }
        Ok(3)
    } else if a == 65 && b == 112 && c == 114 {
        proof {
            assert(sq =~= month_abbrev(4));
        }
        Ok(4)
    } else if a == 77 && b == 97 && c == 121 {
        proof {
            assert(sq =~= month_abbrev(5));
        }
        Ok(5)
    } else if a == 74 && b == 117 && c == 110 {
        proof {
            assert(sq =~= month_abbrev(6));
        }
        Ok(6)
    } else if a == 74 && b == 117 && c == 108 {
        proof {
            assert(sq =~= month_abbrev(7));
        }
        Ok(7)
    } else if a == 65 && b == 117 && c == 103 {
        proof {
            assert(sq =~= month_abbrev(8));
        }
        Ok(8)
    } else if a == 83 && b == 101 && c == 112 {
        proof {
            assert(sq =~= month_abbrev(9));
        }
        Ok(9)
    } else if a == 79 && b == 99 && c == 116 {
        proof {
            assert(sq =~= month_abbrev(10));
        }
        Ok(10)
    } else if a == 78 && b == 111 && c == 118 {
        proof {
            assert(sq =~= month_abbrev(11));
        }
        Ok(11)
    } else if a == 68 && b == 101 && c == 99 {
        proof {
            assert(sq =~= month_abbrev(12));
        }
        Ok(12)
    } else {
        proof {
            assert forall|m: int| 1 <= m <= 12 implies sq != month_abbrev(m) by {
                if sq == month_abbrev(m) {
                    assert(sq[0] == month_abbrev(m)[0]);
                    assert(sq[1] == month_abbrev(m)[1]);
                    assert(sq[2] == month_abbrev(m)[2]);
                }
            }
        }
        Err(ParseError::BadMonth)
    };
    r
}

/// The day a field names: one or two digits.
pub open spec fn spec_day(s: Seq<u8>) -> Option<int> {
    if 1 <= s.len() <= 2 && all_digits(s) {
        Some(digits_value(s))
    } else {
        None
    }
}

/// The year a field names: exactly four digits.
pub open spec fn spec_year(s: Seq<u8>) -> Option<int> {
    if s.len() == 4 && all_digits(s) {
        Some(digits_value(s))
    } else {
        None
    }
}

/// Reads a day field: one or two digits.
pub fn parse_day(field: &Vec<u8>) -> (r: Result<u8, ParseError>)
    ensures
        ({
            match spec_day(field@) {
                Option::None => r == Err::<u8, ParseError>(ParseError::BadDay),
                Option::Some(d) => r == Ok::<u8, ParseError>(d as u8),
            }
        }),
{
    let ghost sq = field@;
    let n = field.len();
    if n < 1 || n > 2 {
        return Err(ParseError::BadDay);
    }
    let c0 = field[0];
    if c0 < 48 || c0 > 57 {
        return Err(ParseError::BadDay);
    }
    if n == 1 {
        proof {
            lemma_digits_value_1(sq);
        }
        Ok(c0 - 48)
    } else {
        let c1 = field[1];
        if c1 < 48 || c1 > 57 {
            return Err(ParseError::BadDay);
        }
        proof {
            lemma_digits_value_2(sq);
        }
        Ok((c0 - 48) * 10 + (c1 - 48))
    }
}

/// Reads a year field: exactly four digits.
pub fn parse_year(field: &Vec<u8>) -> (r: Result<i32, ParseError>)
    ensures
        ({
            match spec_year(field@) {
                Option::None => r == Err::<i32, ParseError>(ParseError::BadYear),
                Option::Some(y) => r == Ok::<i32, ParseError>(y as i32),
            }
        }),
{
    let ghost sq = field@;
    if field.len() != 4 {
        return Err(ParseError::BadYear);
    }
    let c0 = field[0];
    let c1 = field[1];
    let c2 = field[2];
    let c3 = field[3];
    if c0 < 48 || c0 > 57 || c1 < 48 || c1 > 57 || c2 < 48 || c2 > 57 || c3 < 48 || c3 > 57 {
        return Err(ParseError::BadYear);
    }
    proof {
        lemma_digits_value_4(sq);
    }
    let y: i32 = ((c0 - 48) as i32) * 1000 + ((c1 - 48) as i32) * 100 + ((c2 - 48) as i32) * 10 + (
    (c3 - 48) as i32);
    Ok(y)
}

/// The views of a record's fields.
pub open spec fn fields_view(fs: Seq<Vec<u8>>) -> Seq<Seq<u8>> {
    Seq::new(fs.len(), |i: int| fs[i]@)
}

/// A price field: a well-formed amount that is positive and bounded.
pub open spec fn spec_price_field(s: Seq<u8>) -> Result<int, ParseError> {
    match spec_amount(s) {
        Option::None => Err(ParseError::BadAmount),
        Option::Some(v) => if 1 <= v && v <= MAX_CENTS {
            Ok(v)
        } else {
            Err(ParseError::AmountOutOfRange)
        },
    }
}

/// A volume field: a well-formed amount that is bounded; zero is allowed.
pub open spec fn spec_volume_field(s: Seq<u8>) -> Result<int, ParseError> {
    match spec_amount(s) {
        Option::None => Err(ParseError::BadAmount),
        Option::Some(v) => if 0 <= v && v <= MAX_CENTS {
            Ok(v)
        } else {
            Err(ParseError::AmountOutOfRange)
        },
    }
}

/// The observation a record's fields write, or the first reason, in field
/// order, why they write none.
pub open spec fn spec_observation_from_fields(fs: Seq<Seq<u8>>) -> Result<
    Observation,
    ParseError,
> {
    if fs.len() < 9 {
        Err(ParseError::MissingField)
    } else {
        match spec_month(fs[0]) {
            Option::None => Err(ParseError::BadMonth),
            Option::Some(mo) => match spec_day(fs[1]) {
                Option::None => Err(ParseError::BadDay),
                Option::Some(da) => match spec_year(fs[2]) {
                    Option::None => Err(ParseError::BadYear),
                    Option::Some(yr) => {
                        let d = Date { year: yr as i32, month: mo as u8, day: da as u8 };
                        if !d.valid() {
                            Err(ParseError::BadDate)
                        } else {
                            match spec_price_field(fs[3]) {
                                Err(e) => Err(e),
                                Ok(open) => match spec_price_field(fs[4]) {
                                    Err(e) => Err(e),
                                    Ok(high) => match spec_price_field(fs[5]) {
                                        Err(e) => Err(e),
                                        Ok(low) => match spec_price_field(fs[6]) {
                                            Err(e) => Err(e),
                                            Ok(close) => match spec_volume_field(fs[8]) {
                                                Err(e) => Err(e),
                                                Ok(volume) => Ok(
                                                    Observation {
                                                        date: d,
                                                        open: open as i64,
                                                        high: high as i64,
                                                        low: low as i64,
                                                        close: close as i64,
                                                        volume: volume as i64,
                                                    },
                                                ),
                                            },
                                        },
                                    },
                                },
                            }
                        }
                    },
                },
            },
        }
    }
}

impl Observation {
    /// Normalizes one record's textual fields into an observation. The
    /// result is exactly what the fields write; an accepted observation is
    /// always well-formed.
    pub fn from_fields(fields: &Vec<Vec<u8>>) -> (r: Result<Observation, ParseError>)
        ensures
            r == spec_observation_from_fields(fields_view(fields@)),
            r matches Ok(o) ==> o.wf(),
    {
        let ghost fs = fields_view(fields@);
        if fields.len() < 9 {
            return Err(ParseError::MissingField);
        }
        let mo = match parse_month(&fields[0]) {
            Ok(m) => m,
            Err(e) => {
                return Err(e);
            },
        };
        let da = match parse_day(&fields[1]) {
            Ok(d) => d,
            Err(e) => {
                return Err(e);
            },
        };
        let yr = match parse_year(&fields[2]) {
            Ok(y) => y,
            Err(e) => {
                return Err(e);
            },
        };
        let d = match Date::new(yr, mo, da) {
            Some(d) => d,
            None => {
                return Err(ParseError::BadDate);
            },
        };
        let open = match parse_amount(&fields[3]) {
            Ok(v) => v,
            Err(e) => {
                return Err(e);
            },
        };
        proof {
            lemma_spec_amount_nonneg(fs[3]);
        }
        if open < 1 {
            return Err(ParseError::AmountOutOfRange);
        }
        let high = match parse_amount(&fields[4]) {
            Ok(v) => v,
            Err(e) => {
                return Err(e);
            },
        };
        proof {
            lemma_spec_amount_nonneg(fs[4]);
        }
        if high < 1 {
            return Err(ParseError::AmountOutOfRange);
        }
        let low = match parse_amount(&fields[5]) {
            Ok(v) => v,
            Err(e) => {
                return Err(e);
            },
        };
        proof {
            lemma_spec_amount_nonneg(fs[5]);
        }
        if low < 1 {
            return Err(ParseError::AmountOutOfRange);
        }
        let close = match parse_amount(&fields[6]) {
            Ok(v) => v,
            Err(e) => {
                return Err(e);
            },
        };
        proof {
            lemma_spec_amount_nonneg(fs[6]);
        }
        if close < 1 {
            return Err(ParseError::AmountOutOfRange);
        }
        let volume = match parse_amount(&fields[8]) {
            Ok(v) => v,
            Err(e) => {
                return Err(e);
            },
        };
        proof {
            lemma_spec_amount_nonneg(fs[8]);
        }
        Ok(Observation { date: d, open, high, low, close, volume })
    }
}

} // verus!
