use root::attendance::{TimeOfDay, time_of_day_of_local_seconds};
use root::clock::{
    FIXED_ZONE_OFFSET, day_context_of_timestamp, local_instant, seconds_until_next_local_midnight,
};
use root::date::{Date, date_le, date_of_local_seconds, days_in_month, is_leap_year, parse_date};
use root::queries::date_iso_string;

fn d(year: i32, month: i32, day: i32) -> Date {
    Date { year, month, day }
}

#[test]
fn leap_years() {
    assert!(is_leap_year(2024));
    assert!(!is_leap_year(2023));
    assert!(!is_leap_year(1900));
    assert!(is_leap_year(2000));
}

#[test]
fn month_lengths() {
    assert_eq!(days_in_month(2024, 2), 29);
    assert_eq!(days_in_month(2023, 2), 28);
    assert_eq!(days_in_month(2024, 4), 30);
    assert_eq!(days_in_month(2024, 12), 31);
}

#[test]
fn predecessor_crosses_boundaries() {
    assert_eq!(d(2024, 3, 1).pred(), d(2024, 2, 29));
    assert_eq!(d(2025, 3, 1).pred(), d(2025, 2, 28));
    assert_eq!(d(2024, 1, 1).pred(), d(2023, 12, 31));
    assert_eq!(d(2024, 2, 15).pred(), d(2024, 2, 14));
}

#[test]
fn month_start_flag() {
    assert!(d(2024, 3, 1).is_month_start());
    assert!(!d(2024, 3, 2).is_month_start());
}

#[test]
fn date_constructor_validates() {
    assert_eq!(Date::new(2024, 2, 29), Some(d(2024, 2, 29)));
    assert_eq!(Date::new(2023, 2, 29), None);
    assert_eq!(Date::new(2024, 13, 1), None);
    assert_eq!(Date::new(2024, 0, 1), None);
    assert_eq!(Date::new(2024, 4, 31), None);
}

#[test]
fn parse_date_accepts_iso_days() {
    assert_eq!(parse_date("2024-02-29"), Some(d(2024, 2, 29)));
    assert_eq!(parse_date("1999-12-31"), Some(d(1999, 12, 31)));
}

#[test]
fn parse_date_rejects_malformed_input() {
    assert_eq!(parse_date("2024-02-30"), None);
    assert_eq!(parse_date("2023-02-29"), None);
    assert_eq!(parse_date("2024/02/28"), None);
    assert_eq!(parse_date("24-02-28"), None);
    assert_eq!(parse_date("2024-2-28"), None);
    assert_eq!(parse_date(""), None);
    assert_eq!(parse_date("2024-02-28 "), None);
}

#[test]
fn epoch_date() {
    assert_eq!(date_of_local_seconds(0), d(1970, 1, 1));
    assert_eq!(date_of_local_seconds(86399), d(1970, 1, 1));
    assert_eq!(date_of_local_seconds(86400), d(1970, 1, 2));
}

// The timezone table must shift every covered instant by exactly the IST
// offset.
#[test]
fn fixed_zone_shift_is_ist() {
    assert_eq!(local_instant(0), Some(19800));
    assert_eq!(local_instant(1_709_236_800), Some(1_709_236_800 + 19800));
    assert_eq!(local_instant(-1), None);
    assert_eq!(FIXED_ZONE_OFFSET, 19800);
}

// A UTC instant late on 2024-02-29 already lies in 2024-03-01 for the
// fixed timezone: today, yesterday and the month start all follow the
// fixed timezone, not the machine's.
#[test]
fn day_context_uses_fixed_timezone() {
    let ctx = day_context_of_timestamp(1_709_236_800, FIXED_ZONE_OFFSET).unwrap();
    assert_eq!(ctx.today, d(2024, 3, 1));
    assert_eq!(ctx.yesterday, d(2024, 2, 29));
    assert_eq!(ctx.month_first, d(2024, 3, 1));
}

#[test]
fn day_context_mid_month() {
    let ctx = day_context_of_timestamp(1_707_976_800, FIXED_ZONE_OFFSET).unwrap();
    assert_eq!(ctx.today, d(2024, 2, 15));
    assert_eq!(ctx.yesterday, d(2024, 2, 14));
    assert_eq!(ctx.month_first, d(2024, 2, 1));
}

#[test]
fn day_context_rejects_out_of_range() {
    assert_eq!(day_context_of_timestamp(-86400 * 2, FIXED_ZONE_OFFSET), None);
    assert_eq!(day_context_of_timestamp(i64::MAX, FIXED_ZONE_OFFSET), None);
}

#[test]
fn time_of_day_splits_seconds() {
    // 11:30:00 into a local day that starts at 1714867200
    let t = time_of_day_of_local_seconds(1_714_867_200 + 11 * 3600 + 30 * 60);
    assert_eq!(t, TimeOfDay { hour: 11, minute: 30, second: 0 });
    let u = time_of_day_of_local_seconds(86400 + 3661);
    assert_eq!(u, TimeOfDay { hour: 1, minute: 1, second: 1 });
}

// At midnight sharp the scheduler waits a full day: it never fires twice
// for one day.
#[test]
fn wait_from_midnight_is_a_full_day() {
    let wait = seconds_until_next_local_midnight(1_714_847_400, FIXED_ZONE_OFFSET).unwrap();
    assert_eq!(wait, 86400);
}

#[test]
fn wait_lands_on_next_midnight() {
    let wait = seconds_until_next_local_midnight(1_714_851_000, FIXED_ZONE_OFFSET).unwrap();
    assert_eq!(wait, 82800);
    let ctx1 = day_context_of_timestamp(1_714_851_000, FIXED_ZONE_OFFSET).unwrap();
    let ctx2 = day_context_of_timestamp(1_714_851_000 + wait, FIXED_ZONE_OFFSET).unwrap();
    assert_eq!(ctx1.today, d(2024, 5, 5));
    assert_eq!(ctx2.today, d(2024, 5, 6));
}

#[test]
fn iso_round_trip() {
    for date in [d(2024, 2, 29), d(1970, 1, 1), d(9999, 12, 31), d(2024, 10, 5)] {
        assert_eq!(parse_date(&date_iso_string(date)), Some(date));
    }
}

#[test]
fn calendar_order() {
    assert!(date_le(d(2024, 2, 29), d(2024, 3, 1)));
    assert!(!date_le(d(2024, 3, 1), d(2024, 2, 29)));
    assert!(date_le(d(2024, 3, 1), d(2024, 3, 1)));
    assert!(date_le(d(2023, 12, 31), d(2024, 1, 1)));
}
