//! Calendar dates as plain values.
//!
//! An ascent records the calendar day it happened on (no time component).
//! The library holds a date as year, month and day with the usual
//! Gregorian validity rules, and reads and writes the `YYYY-MM-DD` text
//! form used in the JSON bodies.

use vstd::prelude::*;

verus! {

#[derive(Clone, Copy, PartialEq, Eq, Structural, Debug)]
pub struct DateVal {
    pub year: u16,
    pub month: u8,
    pub day: u8,
}

pub open spec fn leap_year(y: int) -> bool {
    y % 4 == 0 && (y % 100 != 0 || y % 400 == 0)
}

pub open spec fn days_in_month(y: int, m: int) -> int {
    if m == 2 {
        if leap_year(y) {
            29
        } else {
            28
        }
    } else if m == 4 || m == 6 || m == 9 || m == 11 {
        30
    } else {
        31
    }
}

impl DateVal {
    /// A valid calendar date with a four-digit year.
    pub open spec fn wf(self) -> bool {
        self.year <= 9999 && 1 <= self.month <= 12 && 1 <= self.day <= days_in_month(
            self.year as int,
            self.month as int,
        )
    }
}

pub fn is_leap_year(y: u16) -> (r: bool)
    ensures
        r == leap_year(y as int),
{
    y % 4 == 0 && (y % 100 != 0 || y % 400 == 0)
}

pub fn month_length(y: u16, m: u8) -> (r: u8)
    ensures
        r as int == days_in_month(y as int, m as int),
{
    if m == 2 {
        if is_leap_year(y) {
            29
        } else {
            28
        }
    } else if m == 4 || m == 6 || m == 9 || m == 11 {
        30
    } else {
        31
    }
}

/// Build a date from its parts; `None` exactly when the parts are not a
/// valid calendar date with a four-digit year.
pub fn make_date(year: u16, month: u8, day: u8) -> (r: Option<DateVal>)
    ensures
        match r {
            Some(d) => d == (DateVal { year, month, day }) && d.wf(),
            None => !(DateVal { year, month, day }).wf(),
        },
{
    if year <= 9999 && 1 <= month && month <= 12 && 1 <= day && day <= month_length(year, month) {
        Some(DateVal { year, month, day })
    } else {
        None
    }
}

/// The ASCII digit for `n`, which must be below ten.
pub open spec fn digit(n: int) -> u8 {
    (48 + n) as u8
}

/// The ten-byte `YYYY-MM-DD` text of a date.
pub open spec fn date_text(d: DateVal) -> Seq<u8> {
    seq![
        digit(d.year as int / 1000),
        digit((d.year as int / 100) % 10),
        digit((d.year as int / 10) % 10),
        digit(d.year as int % 10),
        45u8,
        digit(d.month as int / 10),
        digit(d.month as int % 10),
        45u8,
        digit(d.day as int / 10),
        digit(d.day as int % 10),
    ]
}

pub fn format_date(d: DateVal) -> (r: Vec<u8>)
    requires
        d.wf(),
    ensures
        r@ == date_text(d),
{
    let mut out: Vec<u8> = Vec::new();
    out.push((48 + d.year / 1000) as u8);
    out.push((48 + (d.year / 100) % 10) as u8);
    out.push((48 + (d.year / 10) % 10) as u8);
    out.push((48 + d.year % 10) as u8);
    out.push(45);
    out.push(48 + d.month / 10);
    out.push(48 + d.month % 10);
    out.push(45);
    out.push(48 + d.day / 10);
    out.push(48 + d.day % 10);
    proof {
        assert(out@ =~= date_text(d));
    }
    out
}

pub open spec fn is_digit(b: u8) -> bool {
    48 <= b <= 57
}

/// The date a ten-byte text denotes: digits in the `YYYY-MM-DD` positions,
/// hyphens between, and the parts a valid calendar date; `None` otherwise.
pub open spec fn date_of_text(s: Seq<u8>) -> Option<DateVal> {
    if s.len() == 10 && s[4] == 45 && s[7] == 45 && is_digit(s[0]) && is_digit(s[1]) && is_digit(
        s[2],
    ) && is_digit(s[3]) && is_digit(s[5]) && is_digit(s[6]) && is_digit(s[8]) && is_digit(s[9]) {
        let d = DateVal {
            year: ((s[0] - 48) as int * 1000 + (s[1] - 48) as int * 100 + (s[2] - 48) as int * 10
                + (s[3] - 48) as int) as u16,
            month: ((s[5] - 48) * 10 + (s[6] - 48)) as u8,
            day: ((s[8] - 48) * 10 + (s[9] - 48)) as u8,
        };
        if d.wf() {
            Some(d)
        } else {
            None
        }
    } else {
        None
    }
}

pub fn parse_date(s: &[u8]) -> (r: Option<DateVal>)
    ensures
        r == date_of_text(s@),
{
    if s.len() != 10 {
        return None;
    }
    let b0 = s[0];
    let b1 = s[1];
    let b2 = s[2];
    let b3 = s[3];
    let b4 = s[4];
    let b5 = s[5];
    let b6 = s[6];
    let b7 = s[7];
    let b8 = s[8];
    let b9 = s[9];
    if !(b4 == 45 && b7 == 45 && 48 <= b0 && b0 <= 57 && 48 <= b1 && b1 <= 57 && 48 <= b2 && b2
        <= 57 && 48 <= b3 && b3 <= 57 && 48 <= b5 && b5 <= 57 && 48 <= b6 && b6 <= 57 && 48 <= b8
        && b8 <= 57 && 48 <= b9 && b9 <= 57) {
        return None;
    }
    let year: u16 = (b0 - 48) as u16 * 1000 + (b1 - 48) as u16 * 100 + (b2 - 48) as u16 * 10 + (b3
        - 48) as u16;
    let month: u8 = (b5 - 48) * 10 + (b6 - 48);
    let day: u8 = (b8 - 48) * 10 + (b9 - 48);
    make_date(year, month, day)
}

/// Every byte of a valid date's text is plain ASCII.
pub proof fn lemma_date_text_ascii(d: DateVal)
    requires
        d.wf(),
    ensures
        forall|j: int| 0 <= j < date_text(d).len() ==> date_text(d)[j] < 0x80,
{
    let y = d.year as int;
    assert(y / 1000 <= 9) by (nonlinear_arith)
        requires
            0 <= y <= 9999,
    ;
    assert(d.month as int / 10 <= 1) by (nonlinear_arith)
        requires
            0 <= d.month <= 12,
    ;
    assert(d.day as int / 10 <= 3) by (nonlinear_arith)
        requires
            0 <= d.day <= 31,
    ;
}

/// Writing a valid date and reading the text back yields the same date.
pub proof fn lemma_date_round_trip(d: DateVal)
    requires
        d.wf(),
    ensures
        date_of_text(date_text(d)) == Some(d),
{
    let s = date_text(d);
    let y = d.year as int;
    assert(y / 1000 <= 9) by (nonlinear_arith)
        requires
            y <= 9999,
            y >= 0,
    ;
    assert((y / 1000) * 1000 + ((y / 100) % 10) * 100 + ((y / 10) % 10) * 10 + y % 10 == y)
        by (nonlinear_arith)
        requires
            0 <= y <= 9999,
    ;
    let m = d.month as int;
    assert((m / 10) * 10 + m % 10 == m) by (nonlinear_arith)
        requires
            0 <= m <= 12,
    ;
    let dd = d.day as int;
    assert((dd / 10) * 10 + dd % 10 == dd) by (nonlinear_arith)
        requires
            0 <= dd <= 31,
    ;
}

} // verus!
