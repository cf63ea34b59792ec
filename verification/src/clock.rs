//! The wall clock as plain values, and the fixed-width decimal formatting of
//! dates and timestamps.

use vstd::prelude::*;
use chrono::{Datelike, Timelike};
use crate::text::{digit_char, digit_str};

verus! {

/// A local wall-clock instant, broken into plain calendar and time-of-day
/// fields.
pub struct LocalStamp {
    pub year: i32,
    pub month: u8,
    pub day: u8,
    pub hour: u8,
    pub minute: u8,
    pub second: u8,
}

/// Relies on chrono's `Local::now` with the `Datelike` and `Timelike`
/// accessors: the month number is 1 to 12, the day of month 1 to 31, the
/// hour below 24, the minute and the second below 60.
#[verifier::external_body]
pub fn now_local() -> (t: LocalStamp)
    ensures
        1 <= t.month <= 12,
        1 <= t.day <= 31,
        t.hour < 24,
        t.minute < 60,
        t.second < 60,
{
    let now = chrono::Local::now();
    LocalStamp {
        year: now.year(),
        month: now.month() as u8,
        day: now.day() as u8,
        hour: now.hour() as u8,
        minute: now.minute() as u8,
        second: now.second() as u8,
    }
}

/// Two decimal digits, zero padded.
pub open spec fn two_digits_spec(n: int) -> Seq<char> {
    seq![digit_char(n / 10), digit_char(n % 10)]
}

/// Four decimal digits, zero padded.
pub open spec fn four_digits_spec(n: int) -> Seq<char> {
    two_digits_spec(n / 100) + two_digits_spec(n % 100)
}

/// A `YYYY-MM-DD` date text.
pub open spec fn format_date_spec(y: int, m: int, d: int) -> Seq<char> {
    four_digits_spec(y) + seq!['-'] + two_digits_spec(m) + seq!['-'] + two_digits_spec(d)
}

/// A `YYYY-MM-DD HH:MM:SS` timestamp text.
pub open spec fn format_timestamp_spec(t: LocalStamp) -> Seq<char> {
    format_date_spec(t.year as int, t.month as int, t.day as int) + seq![' '] + two_digits_spec(
        t.hour as int,
    ) + seq![':'] + two_digits_spec(t.minute as int) + seq![':'] + two_digits_spec(t.second as int)
}

/// Render two zero-padded decimal digits.
pub fn two_digits(n: u32) -> (r: String)
    requires
        n < 100,
    ensures
        r@ == two_digits_spec(n as int),
{
    let mut r = String::new();
    r.append(digit_str((n / 10) as u64));
    r.append(digit_str((n % 10) as u64));
    assert(r@ =~= two_digits_spec(n as int));
    r
}

/// Render four zero-padded decimal digits.
pub fn four_digits(n: u32) -> (r: String)
    requires
        n < 10000,
    ensures
        r@ == four_digits_spec(n as int),
{
    let mut r = two_digits(n / 100);
    let low = two_digits(n % 100);
    r.append(low.as_str());
    assert(r@ =~= four_digits_spec(n as int));
    r
}

/// Render a `YYYY-MM-DD` date text.
pub fn format_date(y: u32, m: u32, d: u32) -> (r: String)
    requires
        y < 10000,
        m < 100,
        d < 100,
    ensures
        r@ == format_date_spec(y as int, m as int, d as int),
{
    let mut r = four_digits(y);
    r.append("-");
    let mm = two_digits(m);
    r.append(mm.as_str());
    r.append("-");
    let dd = two_digits(d);
    r.append(dd.as_str());
    proof {
        reveal_strlit("-");
        assert(r@ =~= format_date_spec(y as int, m as int, d as int));
    }
    r
}

/// Render a stamp as `YYYY-MM-DD HH:MM:SS`, or nothing when the year does not
/// fit four digits.
pub fn format_timestamp(t: &LocalStamp) -> (r: Option<String>)
    requires
        t.month < 100,
        t.day < 100,
        t.hour < 100,
        t.minute < 100,
        t.second < 100,
    ensures
        match r {
            Some(s) => 0 <= t.year < 10000 && s@ == format_timestamp_spec(*t),
            None => !(0 <= t.year < 10000),
        },
{
    if t.year < 0 || t.year >= 10000 {
        return None;
    }
    let mut r = format_date(t.year as u32, t.month as u32, t.day as u32);
    r.append(" ");
    let hh = two_digits(t.hour as u32);
    r.append(hh.as_str());
    r.append(":");
    let mm = two_digits(t.minute as u32);
    r.append(mm.as_str());
    r.append(":");
    let ss = two_digits(t.second as u32);
    r.append(ss.as_str());
    proof {
        reveal_strlit(" ");
        reveal_strlit(":");
        assert(r@ =~= format_timestamp_spec(*t));
    }
    Some(r)
}

/// The day-partition directory name for a stamp: its `YYYY-MM-DD` date, or
/// nothing when the year does not fit four digits.
pub fn partition_dir_name(t: &LocalStamp) -> (r: Option<String>)
    requires
        t.month < 100,
        t.day < 100,
    ensures
        match r {
            Some(s) => 0 <= t.year < 10000 && s@ == format_date_spec(
                t.year as int,
                t.month as int,
                t.day as int,
            ),
            None => !(0 <= t.year < 10000),
        },
{
    if t.year < 0 || t.year >= 10000 {
        return None;
    }
    Some(format_date(t.year as u32, t.month as u32, t.day as u32))
}

} // verus!
