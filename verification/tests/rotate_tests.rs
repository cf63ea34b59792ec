use red::clock::{format_date, format_timestamp, partition_dir_name, LocalStamp};
use red::rotate::{
    entry_action, parse_date, parse_rotation_time, next_rotation_time,
    seconds_until_next_rotation, Date, EntryAction, TimeOfDay,
};
use red::text::{parse_u64_digits, u64_to_string};

#[test]
fn parse_date_accepts_exact_dates() {
    let d = parse_date("2024-01-08").unwrap();
    assert_eq!(d.year, 2024);
    assert_eq!(d.month, 1);
    assert_eq!(d.day, 8);
    assert!(parse_date("2024-02-29").is_some());
    assert!(parse_date("2023-02-29").is_none());
    assert!(parse_date("2024-13-01").is_none());
    assert!(parse_date("2024-00-01").is_none());
    assert!(parse_date("2024-01-32").is_none());
    assert!(parse_date("2024-04-31").is_none());
    assert!(parse_date("24-01-01").is_none());
    assert!(parse_date("2024-1-1").is_none());
    assert!(parse_date("notes.txt").is_none());
    assert!(parse_date("").is_none());
    assert!(parse_date("2024-01-08x").is_none());
}

#[test]
fn day_numbers_count_calendar_days() {
    let epoch = Date::new(1970, 1, 1).unwrap();
    assert_eq!(epoch.day_number(), 0);
    let a = parse_date("2024-01-01").unwrap();
    let b = parse_date("2024-01-08").unwrap();
    assert_eq!(b.day_number() - a.day_number(), 7);
    let feb = parse_date("2024-02-28").unwrap();
    let mar = parse_date("2024-03-01").unwrap();
    assert_eq!(mar.day_number() - feb.day_number(), 2);
    let feb23 = parse_date("2023-02-28").unwrap();
    let mar23 = parse_date("2023-03-01").unwrap();
    assert_eq!(mar23.day_number() - feb23.day_number(), 1);
    let y1 = parse_date("2023-05-10").unwrap();
    let y2 = parse_date("2024-05-10").unwrap();
    assert_eq!(y2.day_number() - y1.day_number(), 366);
}

#[test]
fn rotation_pruning_scenario() {
    // Base holds 2024-01-01, 2024-01-07, 2024-01-08 and a stray notes.txt;
    // retention 7, today 2024-01-08.
    let today = parse_date("2024-01-08").unwrap();
    assert_eq!(entry_action("2024-01-01", true, &today, 7), EntryAction::Delete);
    assert_eq!(entry_action("2024-01-07", true, &today, 7), EntryAction::Keep);
    assert_eq!(entry_action("2024-01-08", true, &today, 7), EntryAction::Keep);
    assert_eq!(entry_action("notes.txt", false, &today, 7), EntryAction::Delete);
}

#[test]
fn known_sink_files_survive() {
    let today = parse_date("2024-01-08").unwrap();
    assert_eq!(entry_action("red.log", false, &today, 7), EntryAction::Keep);
    assert_eq!(entry_action("serenity.log", false, &today, 7), EntryAction::Keep);
    assert_eq!(entry_action("heartbeat.log", false, &today, 7), EntryAction::Keep);
    assert_eq!(entry_action("red.log.old", false, &today, 7), EntryAction::Delete);
}

#[test]
fn undated_directories_are_deleted() {
    let today = parse_date("2024-01-08").unwrap();
    assert_eq!(entry_action("old-stuff", true, &today, 7), EntryAction::Delete);
    assert_eq!(entry_action("2024-1-1", true, &today, 7), EntryAction::Delete);
    // A future-dated partition has negative age and stays.
    assert_eq!(entry_action("2024-02-01", true, &today, 7), EntryAction::Keep);
}

#[test]
fn parse_rotation_time_is_strict() {
    let t = parse_rotation_time("03:30").unwrap();
    assert_eq!(t.hour, 3);
    assert_eq!(t.minute, 30);
    assert!(parse_rotation_time("25:61").is_none());
    assert!(parse_rotation_time("24:00").is_none());
    assert!(parse_rotation_time("00:60").is_none());
    assert!(parse_rotation_time("0:00").is_none());
    assert!(parse_rotation_time("00-00").is_none());
    assert!(parse_rotation_time("").is_none());
    assert!(parse_rotation_time("00:00").is_some());
}

#[test]
fn next_rotation_today_or_tomorrow() {
    let at = TimeOfDay { hour: 2, minute: 0 };
    // 01:00 now: today at 02:00.
    let (d, s) = next_rotation_time(100, 3600, at);
    assert_eq!((d, s), (100, 7200));
    // 02:00 sharp: tomorrow.
    let (d, s) = next_rotation_time(100, 7200, at);
    assert_eq!((d, s), (101, 7200));
    // 03:00: tomorrow.
    let (d, s) = next_rotation_time(100, 10800, at);
    assert_eq!((d, s), (101, 7200));
    assert_eq!(seconds_until_next_rotation(100, 3600, at), 3600);
    assert_eq!(seconds_until_next_rotation(100, 7200, at), 86400);
    assert_eq!(seconds_until_next_rotation(100, 10800, at), 82800);
}

#[test]
fn date_and_timestamp_formatting() {
    assert_eq!(format_date(2024, 1, 8), "2024-01-08");
    assert_eq!(format_date(7, 12, 31), "0007-12-31");
    let t = LocalStamp { year: 2024, month: 1, day: 8, hour: 9, minute: 5, second: 3 };
    assert_eq!(format_timestamp(&t).unwrap(), "2024-01-08 09:05:03");
    assert_eq!(partition_dir_name(&t).unwrap(), "2024-01-08");
    let far = LocalStamp { year: 10000, month: 1, day: 1, hour: 0, minute: 0, second: 0 };
    assert!(format_timestamp(&far).is_none());
}

#[test]
fn decimal_helpers() {
    assert_eq!(u64_to_string(0), "0");
    assert_eq!(u64_to_string(7), "7");
    assert_eq!(u64_to_string(1234567890), "1234567890");
    assert_eq!(u64_to_string(u64::MAX), "18446744073709551615");
    assert_eq!(parse_u64_digits("0"), Some(0));
    assert_eq!(parse_u64_digits("18446744073709551615"), Some(u64::MAX));
    assert_eq!(parse_u64_digits("18446744073709551616"), None);
    assert_eq!(parse_u64_digits(""), None);
    assert_eq!(parse_u64_digits("12a"), None);
}

#[test]
fn stamp_to_date_checks_validity() {
    let t = LocalStamp { year: 2024, month: 2, day: 29, hour: 0, minute: 0, second: 0 };
    assert!(Date::from_stamp(&t).is_some());
    let bad = LocalStamp { year: 2023, month: 2, day: 29, hour: 0, minute: 0, second: 0 };
    assert!(Date::from_stamp(&bad).is_none());
}

#[test]
fn todays_partition_survives_minimum_retention() {
    let today = parse_date("2024-01-08").unwrap();
    assert_eq!(entry_action("2024-01-08", true, &today, 1), EntryAction::Keep);
    assert_eq!(entry_action("2024-01-07", true, &today, 1), EntryAction::Delete);
}
