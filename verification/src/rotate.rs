//! The log-rotation policy: which entries under the log base survive a pass,
//! and when the next pass runs.  Retention is decided on calendar dates
//! parsed from `YYYY-MM-DD` directory names.

use vstd::prelude::*;
use crate::clock::LocalStamp;
use crate::text::{digit_val, is_digit, is_digit_char, str_eq};

verus! {

/// A calendar date within the four-digit-year range that partition names can
/// carry.
#[derive(Clone, Copy, Debug, PartialEq, Eq, Structural)]
pub struct Date {
    pub year: i64,
    pub month: u8,
    pub day: u8,
}

/// A daily wall-clock time.
#[derive(Clone, Copy, Debug, PartialEq, Eq, Structural)]
pub struct TimeOfDay {
    pub hour: u8,
    pub minute: u8,
}

/// Leap year in the proleptic Gregorian calendar.
pub open spec fn is_leap_year(y: int) -> bool {
    y % 4 == 0 && (y % 100 != 0 || y % 400 == 0)
}

/// Days in a month.
pub open spec fn days_in_month(y: int, m: int) -> int {
    if m == 2 {
        if is_leap_year(y) {
            29
        } else {
            28
        }
    } else if m == 4 || m == 6 || m == 9 || m == 11 {
        30
    } else {
        31
    }
}

/// A valid date with a four-digit year.
pub open spec fn valid_date(y: int, m: int, d: int) -> bool {
    0 <= y <= 9999 && 1 <= m <= 12 && 1 <= d <= days_in_month(y, m)
}

impl Date {
    /// Is this a valid date with a four-digit year?
    pub open spec fn wf(&self) -> bool {
        valid_date(self.year as int, self.month as int, self.day as int)
    }

    /// Make a date, checking validity.
    pub fn new(year: i64, month: u8, day: u8) -> (r: Option<Date>)
        ensures
            match r {
                Some(d) => valid_date(year as int, month as int, day as int) && d == (Date {
                    year,
                    month,
                    day,
                }),
                None => !valid_date(year as int, month as int, day as int),
            },
    {
        if year < 0 || year > 9999 || month < 1 || month > 12 || day < 1 {
            return None;
        }
        let dim: u8 = if month == 2 {
            let leap = year % 4 == 0 && (year % 100 != 0 || year % 400 == 0);
            if leap {
                29
            } else {
                28
            }
        } else if month == 4 || month == 6 || month == 9 || month == 11 {
            30
        } else {
            31
        };
        if day > dim {
            return None;
        }
        Some(Date { year, month, day })
    }

    /// The date of a clock stamp, when it is a valid four-digit-year date.
    pub fn from_stamp(t: &LocalStamp) -> (r: Option<Date>)
        ensures
            match r {
                Some(d) => valid_date(t.year as int, t.month as int, t.day as int) && d == (Date {
                    year: t.year as i64,
                    month: t.month,
                    day: t.day,
                }),
                None => !valid_date(t.year as int, t.month as int, t.day as int),
            },
    {
        Date::new(t.year as i64, t.month, t.day)
    }
}

/// Serial day number of a date: consecutive dates differ by one, as in the
/// civil-from-days correspondence of the proleptic Gregorian calendar, with
/// day zero at 1970-01-01.
pub open spec fn day_number_spec(y: int, m: int, d: int) -> int {
    let yy = if m <= 2 {
        y + 399
    } else {
        y + 400
    };
    let era = yy / 400;
    let yoe = yy - era * 400;
    let mp = if m > 2 {
        m - 3
    } else {
        m + 9
    };
    let doy = (153 * mp + 2) / 5 + d - 1;
    let doe = yoe * 365 + yoe / 4 - yoe / 100 + doy;
    era * 146097 + doe - 719468 - 146097
}

impl Date {
    /// Serial day number of this date.
    pub fn day_number(&self) -> (r: i64)
        requires
            self.wf(),
        ensures
            r as int == day_number_spec(self.year as int, self.month as int, self.day as int),
            -866000 <= r <= 3000000,
    {
        let y = self.year as u64;
        let m = self.month as u64;
        let d = self.day as u64;
        let yy: u64 = if m <= 2 {
            y + 399
        } else {
            y + 400
        };
        proof {
            vstd::arithmetic::div_mod::lemma_fundamental_div_mod(yy as int, 400);
        }
        let era: u64 = yy / 400;
        assert(0 <= era <= 25);
        let yoe: u64 = yy - era * 400;
        assert(0 <= yoe <= 399);
        let mp: u64 = if m > 2 {
            m - 3
        } else {
            m + 9
        };
        assert(mp <= 11);
        proof {
            vstd::arithmetic::div_mod::lemma_fundamental_div_mod(153 * mp as int + 2, 5);
            vstd::arithmetic::div_mod::lemma_fundamental_div_mod(yoe as int, 4);
            vstd::arithmetic::div_mod::lemma_fundamental_div_mod(yoe as int, 100);
        }
        let doy: u64 = (153 * mp + 2) / 5 + d - 1;
        assert(doy <= 400);
        let q4: u64 = yoe / 4;
        let q100: u64 = yoe / 100;
        assert(q4 <= 99 && q100 <= 3 && q100 * 100 <= yoe && q4 * 4 <= yoe && q4 * 4 + 4 > yoe);
        assert(q100 <= q4);
        let doe: u64 = yoe * 365 + q4 - q100 + doy;
        assert(doe <= 146500);
        let total: u64 = era * 146097 + doe;
        assert(total <= 3800000);
        total as i64 - 719468 - 146097
    }
}

// ---------------------------------------------------------------------------
// Partition-name parsing
// ---------------------------------------------------------------------------

/// The date a `YYYY-MM-DD` name denotes, if the text has exactly that shape
/// and the date is valid.
pub open spec fn spec_parse_date(s: Seq<char>) -> Option<Date> {
    if s.len() == 10 && is_digit_char(s[0]) && is_digit_char(s[1]) && is_digit_char(s[2])
        && is_digit_char(s[3]) && s[4] == '-' && is_digit_char(s[5]) && is_digit_char(s[6]) && s[7]
        == '-' && is_digit_char(s[8]) && is_digit_char(s[9]) {
        let y = digit_val(s[0]) * 1000 + digit_val(s[1]) * 100 + digit_val(s[2]) * 10 + digit_val(
            s[3],
        );
        let m = digit_val(s[5]) * 10 + digit_val(s[6]);
        let d = digit_val(s[8]) * 10 + digit_val(s[9]);
        if valid_date(y, m, d) {
            Some(Date { year: y as i64, month: m as u8, day: d as u8 })
        } else {
            None
        }
    } else {
        None
    }
}

/// Parse a `YYYY-MM-DD` partition name.
pub fn parse_date(s: &str) -> (r: Option<Date>)
    ensures
        r == spec_parse_date(s@),
{
    let n = s.unicode_len();
    if n != 10 {
        return None;
    }
    let c0 = s.get_char(0);
    let c1 = s.get_char(1);
    let c2 = s.get_char(2);
    let c3 = s.get_char(3);
    let c4 = s.get_char(4);
    let c5 = s.get_char(5);
    let c6 = s.get_char(6);
    let c7 = s.get_char(7);
    let c8 = s.get_char(8);
    let c9 = s.get_char(9);
    if !is_digit(c0) || !is_digit(c1) || !is_digit(c2) || !is_digit(c3) || c4 != '-' || !is_digit(
        c5,
    ) || !is_digit(c6) || c7 != '-' || !is_digit(c8) || !is_digit(c9) {
        return None;
    }
    let y: i64 = ((c0 as u32 - 48) * 1000 + (c1 as u32 - 48) * 100 + (c2 as u32 - 48) * 10 + (
    c3 as u32 - 48)) as i64;
    let m: u8 = ((c5 as u32 - 48) * 10 + (c6 as u32 - 48)) as u8;
    let d: u8 = ((c8 as u32 - 48) * 10 + (c9 as u32 - 48)) as u8;
    Date::new(y, m, d)
}

// ---------------------------------------------------------------------------
// One entry's fate
// ---------------------------------------------------------------------------

/// What a rotation pass does with one entry.
#[derive(Clone, Copy, Debug, PartialEq, Eq, Structural)]
pub enum EntryAction {
    Keep,
    Delete,
}

/// The sink file names a rotation pass leaves alone.
pub open spec fn known_sink_file(name: Seq<char>) -> bool {
    name == "heartbeat.log"@ || name == "red.log"@ || name == "serenity.log"@
}

/// Age of a dated partition in whole days.
pub open spec fn age_days(today: Date, d: Date) -> int {
    day_number_spec(today.year as int, today.month as int, today.day as int) - day_number_spec(
        d.year as int,
        d.month as int,
        d.day as int,
    )
}

/// What one pass does with a directory entry: a file survives only under a
/// known sink name; a directory survives only under a valid date name younger
/// than the retention window.
pub open spec fn spec_entry_action(
    name: Seq<char>,
    is_dir: bool,
    today: Date,
    retention_days: u64,
) -> EntryAction {
    if !is_dir {
        if known_sink_file(name) {
            EntryAction::Keep
        } else {
            EntryAction::Delete
        }
    } else {
        match spec_parse_date(name) {
            Some(d) => if age_days(today, d) >= retention_days {
                EntryAction::Delete
            } else {
                EntryAction::Keep
            },
            None => EntryAction::Delete,
        }
    }
}

/// Decide one entry of the log base.
pub fn entry_action(name: &str, is_dir: bool, today: &Date, retention_days: u64) -> (r:
    EntryAction)
    requires
        today.wf(),
    ensures
        r == spec_entry_action(name@, is_dir, *today, retention_days),
{
    if !is_dir {
        if str_eq(name, "heartbeat.log") || str_eq(name, "red.log") || str_eq(
            name,
            "serenity.log",
        ) {
            EntryAction::Keep
        } else {
            EntryAction::Delete
        }
    } else {
        match parse_date(name) {
            Some(d) => {
                proof {
                    lemma_parsed_date_wf(name@);
                }
                let age: i64 = today.day_number() - d.day_number();
                if retention_days <= 0x7fff_ffff_ffff_ffffu64 && age >= retention_days as i64 {
                    EntryAction::Delete
                } else {
                    proof {
                        if retention_days > 0x7fff_ffff_ffff_ffff {
                            assert(age_days(*today, d) < retention_days);
                        }
                    }
                    EntryAction::Keep
                }
            },
            None => EntryAction::Delete,
        }
    }
}

/// A parsed partition date is well formed.
pub proof fn lemma_parsed_date_wf(s: Seq<char>)
    ensures
        match spec_parse_date(s) {
            Some(d) => d.wf(),
            None => true,
        },
{
}

/// A dated partition at or past the retention age is deleted.
pub proof fn lemma_old_partition_deleted(
    name: Seq<char>,
    today: Date,
    retention_days: u64,
    d: Date,
)
    requires
        spec_parse_date(name) == Some(d),
        age_days(today, d) >= retention_days,
    ensures
        spec_entry_action(name, true, today, retention_days) == EntryAction::Delete,
{
}

/// A file under the base that is not a known sink file is deleted.
pub proof fn lemma_foreign_file_deleted(name: Seq<char>, today: Date, retention_days: u64)
    requires
        !known_sink_file(name),
    ensures
        spec_entry_action(name, false, today, retention_days) == EntryAction::Delete,
{
}


// ---------------------------------------------------------------------------
// Today's partition survives
// ---------------------------------------------------------------------------

/// A date's partition name parses back to the same date.
pub proof fn lemma_format_parse_date(d: Date)
    requires
        d.wf(),
    ensures
        spec_parse_date(
            crate::clock::format_date_spec(d.year as int, d.month as int, d.day as int),
        ) == Some(d),
{
    let y = d.year as int;
    let m = d.month as int;
    let dd = d.day as int;
    let s = crate::clock::format_date_spec(y, m, dd);
    vstd::arithmetic::div_mod::lemma_fundamental_div_mod(y, 100);
    vstd::arithmetic::div_mod::lemma_fundamental_div_mod(y / 100, 10);
    vstd::arithmetic::div_mod::lemma_fundamental_div_mod(y % 100, 10);
    vstd::arithmetic::div_mod::lemma_fundamental_div_mod(m, 10);
    vstd::arithmetic::div_mod::lemma_fundamental_div_mod(dd, 10);
    assert(s.len() == 10);
    assert(s[0] == crate::text::digit_char(y / 100 / 10));
    assert(s[1] == crate::text::digit_char(y / 100 % 10));
    assert(s[2] == crate::text::digit_char(y % 100 / 10));
    assert(s[3] == crate::text::digit_char(y % 100 % 10));
    assert(s[4] == '-');
    assert(s[5] == crate::text::digit_char(m / 10));
    assert(s[6] == crate::text::digit_char(m % 10));
    assert(s[7] == '-');
    assert(s[8] == crate::text::digit_char(dd / 10));
    assert(s[9] == crate::text::digit_char(dd % 10));
    assert(0 <= y / 100 / 10 <= 9 && 0 <= y / 100 % 10 <= 9 && 0 <= y % 100 / 10 <= 9 && 0 <= y
        % 100 % 10 <= 9);
    assert(digit_val(s[0]) * 1000 + digit_val(s[1]) * 100 + digit_val(s[2]) * 10 + digit_val(s[3])
        == y) by {
        assert(digit_val(s[0]) == y / 100 / 10);
        assert(digit_val(s[1]) == y / 100 % 10);
        assert(digit_val(s[2]) == y % 100 / 10);
        assert(digit_val(s[3]) == y % 100 % 10);
    }
    assert(digit_val(s[5]) * 10 + digit_val(s[6]) == m);
    assert(digit_val(s[8]) * 10 + digit_val(s[9]) == dd);
    assert(spec_parse_date(s) == Some(Date { year: y as i64, month: m as u8, day: dd as u8 }));
    assert(Date { year: y as i64, month: m as u8, day: dd as u8 } == d);
}

/// The rotation pass never deletes the partition of the running day: with a
/// retention of at least one day — which `LogRotateConfig::parse_frequency`
/// always yields — today's own directory is kept.
pub proof fn lemma_today_partition_kept(today: Date, retention_days: u64)
    requires
        today.wf(),
        retention_days >= 1,
    ensures
        spec_entry_action(
            crate::clock::format_date_spec(
                today.year as int,
                today.month as int,
                today.day as int,
            ),
            true,
            today,
            retention_days,
        ) == EntryAction::Keep,
{
    lemma_format_parse_date(today);
    assert(age_days(today, today) == 0);
}

// ---------------------------------------------------------------------------
// Scheduling
// ---------------------------------------------------------------------------

/// Parse an `HH:MM` rotation time; exactly the texts the configuration
/// validator accepts parse.
pub fn parse_rotation_time(s: &str) -> (r: Option<TimeOfDay>)
    ensures
        match r {
            Some(t) => crate::config::spec_valid_rotation_time(s@) && t.hour < 24 && t.minute < 60
                && t.hour as int == digit_val(s@[0]) * 10 + digit_val(s@[1]) && t.minute as int
                == digit_val(s@[3]) * 10 + digit_val(s@[4]),
            None => !crate::config::spec_valid_rotation_time(s@),
        },
{
    let n = s.unicode_len();
    if n != 5 {
        return None;
    }
    let c0 = s.get_char(0);
    let c1 = s.get_char(1);
    let c2 = s.get_char(2);
    let c3 = s.get_char(3);
    let c4 = s.get_char(4);
    if !is_digit(c0) || !is_digit(c1) || c2 != ':' || !is_digit(c3) || !is_digit(c4) {
        return None;
    }
    let hour: u32 = (c0 as u32 - 48) * 10 + (c1 as u32 - 48);
    let minute: u32 = (c3 as u32 - 48) * 10 + (c4 as u32 - 48);
    if hour < 24 && minute < 60 {
        Some(TimeOfDay { hour: hour as u8, minute: minute as u8 })
    } else {
        None
    }
}

/// An instant, in seconds, from a day number and seconds of day.
pub open spec fn instant_of(day: int, seconds_of_day: int) -> int {
    day * 86400 + seconds_of_day
}

/// Seconds of day at which a daily time fires.
pub open spec fn fire_second(t: TimeOfDay) -> int {
    t.hour * 3600 + t.minute * 60
}

/// The next instant at which the daily rotation fires: today's firing time if
/// that is still ahead, else tomorrow's.  It is the least firing instant
/// strictly after now.
pub fn next_rotation_time(today_day: i64, now_sod: u32, at: TimeOfDay) -> (r: (i64, u32))
    requires
        at.hour < 24,
        at.minute < 60,
        now_sod < 86400,
        -1000000 <= today_day <= 3000000,
    ensures
        r.1 as int == fire_second(at),
        (r.0 as int, r.1 as int) == spec_next_rotation(today_day as int, now_sod as int, at),
        instant_of(r.0 as int, r.1 as int) > instant_of(today_day as int, now_sod as int),
        forall|day: int|
            instant_of(day, fire_second(at)) > instant_of(today_day as int, now_sod as int)
                ==> instant_of(day, fire_second(at)) >= instant_of(r.0 as int, r.1 as int),
{
    let rot_sod: u32 = at.hour as u32 * 3600 + at.minute as u32 * 60;
    if now_sod < rot_sod {
        proof {
            assert forall|day: int|
                instant_of(day, fire_second(at)) > instant_of(today_day as int, now_sod as int)
                    implies instant_of(day, fire_second(at)) >= instant_of(
                    today_day as int,
                    rot_sod as int,
                ) by {
                if day < today_day as int {
                    assert(day * 86400 <= (today_day as int - 1) * 86400);
                }
            }
        }
        (today_day, rot_sod)
    } else {
        proof {
            assert((today_day + 1) * 86400 == today_day as int * 86400 + 86400);
            assert forall|day: int|
                instant_of(day, fire_second(at)) > instant_of(today_day as int, now_sod as int)
                    implies instant_of(day, fire_second(at)) >= instant_of(
                    today_day as int + 1,
                    rot_sod as int,
                ) by {
                if day <= today_day as int {
                    assert(day * 86400 <= today_day as int * 86400);
                }
            }
        }
        (today_day + 1, rot_sod)
    }
}

/// Seconds from now until the next firing of the daily rotation.
pub fn seconds_until_next_rotation(today_day: i64, now_sod: u32, at: TimeOfDay) -> (r: u64)
    requires
        at.hour < 24,
        at.minute < 60,
        now_sod < 86400,
        -1000000 <= today_day <= 3000000,
    ensures
        r as int == ({
            let (d, s) = spec_next_rotation(today_day as int, now_sod as int, at);
            instant_of(d, s) - instant_of(today_day as int, now_sod as int)
        }),
        1 <= r <= 86400,
{
    let (day, sod) = next_rotation_time(today_day, now_sod, at);
    proof {
        lemma_next_rotation_agrees(today_day as int, now_sod as int, at);
    }
    let now_instant: i64 = today_day * 86400 + now_sod as i64;
    let next_instant: i64 = day * 86400 + sod as i64;
    (next_instant - now_instant) as u64
}

/// The next firing point, as a spec-level pair.
pub open spec fn spec_next_rotation(today_day: int, now_sod: int, at: TimeOfDay) -> (int, int) {
    if now_sod < fire_second(at) {
        (today_day, fire_second(at))
    } else {
        (today_day + 1, fire_second(at))
    }
}

proof fn lemma_next_rotation_agrees(today_day: int, now_sod: int, at: TimeOfDay)
    requires
        at.hour < 24,
        at.minute < 60,
        0 <= now_sod < 86400,
    ensures
        ({
            let (d, s) = spec_next_rotation(today_day, now_sod, at);
            instant_of(d, s) - instant_of(today_day, now_sod) >= 1 && instant_of(d, s)
                - instant_of(today_day, now_sod) <= 86400
        }),
{
    assert((today_day + 1) * 86400 == today_day * 86400 + 86400);
}

} // verus!
