use root::attendance::TimeOfDay;
use root::clock::{FIXED_ZONE_OFFSET, day_context_of_timestamp};
use root::date::Date;
use root::job::{LookupOutcome, run_daily_job};
use root::member::Member;
use root::store::MemoryStore;

fn d(year: i32, month: i32, day: i32) -> Date {
    Date { year, month, day }
}

fn member(id: i32, handle: &str) -> Member {
    Member {
        id,
        rollno: format!("R{}", id),
        name: format!("member {}", id),
        hostel: String::from("north"),
        email: format!("m{}@example.org", id),
        sex: String::from("F"),
        year: 2,
        macaddress: String::from("00:00:00:00:00:00"),
        leaderboard_id: String::from(handle),
        cp_platform: String::from("Codeforces"),
        rating: String::from("0"),
    }
}

fn noon() -> TimeOfDay {
    TimeOfDay { hour: 12, minute: 0, second: 0 }
}

#[test]
fn seeding_is_idempotent() {
    let mut store = MemoryStore::new();
    assert!(store.add_member(member(1, "")));
    let created = store.insert_attendance_if_absent(1, d(2024, 2, 14));
    assert!(created);
    let again = store.insert_attendance_if_absent(1, d(2024, 2, 14));
    assert!(!again);
    assert_eq!(store.attendance.len(), 1);
    let rec = store.get_attendance(1, d(2024, 2, 14)).unwrap();
    assert!(!rec.is_present);
    assert_eq!(rec.time_in, Some(TimeOfDay { hour: 0, minute: 0, second: 0 }));
    assert_eq!(rec.time_out, Some(TimeOfDay { hour: 0, minute: 0, second: 0 }));
}

#[test]
fn seeding_does_not_clobber_marked_rows() {
    let mut store = MemoryStore::new();
    assert!(store.add_member(member(1, "")));
    store.insert_attendance_if_absent(1, d(2024, 2, 14));
    store.mark_attendance(1, d(2024, 2, 14), noon(), true).unwrap();
    let again = store.insert_attendance_if_absent(1, d(2024, 2, 14));
    assert!(!again);
    assert!(store.get_attendance(1, d(2024, 2, 14)).unwrap().is_present);
}

#[test]
fn marking_requires_a_row() {
    let mut store = MemoryStore::new();
    assert!(store.mark_attendance(5, d(2024, 2, 14), noon(), true).is_none());
}

#[test]
fn marking_replaces_sentinel_time_in_only_once() {
    let mut store = MemoryStore::new();
    store.insert_attendance_if_absent(3, d(2024, 2, 14));
    let first = store.mark_attendance(3, d(2024, 2, 14), noon(), true).unwrap();
    assert_eq!(first.time_in, Some(noon()));
    assert_eq!(first.time_out, Some(noon()));
    let later = TimeOfDay { hour: 18, minute: 30, second: 5 };
    let second = store.mark_attendance(3, d(2024, 2, 14), later, true).unwrap();
    assert_eq!(second.time_in, Some(noon()));
    assert_eq!(second.time_out, Some(later));
    assert!(second.is_present);
}

// Member 42 has yesterday (2024-02-29) present and no streak row; the run
// on 2024-03-01 creates today's absent row and a zero streak row for
// March: the month-start reset wins over the same-day increment, since
// yesterday belongs to February.
#[test]
fn month_start_reset_wins_over_increment() {
    let mut store = MemoryStore::new();
    assert!(store.add_member(member(42, "")));
    store.insert_attendance_if_absent(42, d(2024, 2, 29));
    store.mark_attendance(42, d(2024, 2, 29), noon(), true).unwrap();
    let ctx = day_context_of_timestamp(1_709_236_800, FIXED_ZONE_OFFSET).unwrap();
    assert_eq!(ctx.today, d(2024, 3, 1));
    let lookups = vec![LookupOutcome::NoData];
    let report = run_daily_job(&mut store, ctx, &lookups);
    let seeded = store.get_attendance(42, d(2024, 3, 1)).unwrap();
    assert!(!seeded.is_present);
    assert_eq!(store.get_streak(42, d(2024, 3, 1)), Some(0));
    assert_eq!(report.streaks_reset, 1);
    assert_eq!(report.streaks_incremented, 0);
    assert_eq!(report.seeded, 1);
}

#[test]
fn month_start_keeps_existing_row() {
    let mut store = MemoryStore::new();
    assert!(store.add_member(member(4, "")));
    assert!(store.insert_streak_if_absent(4, d(2024, 3, 1), 7));
    let ctx = day_context_of_timestamp(1_709_236_800, FIXED_ZONE_OFFSET).unwrap();
    let lookups = vec![LookupOutcome::NoData];
    let report = run_daily_job(&mut store, ctx, &lookups);
    assert_eq!(store.get_streak(4, d(2024, 3, 1)), Some(7));
    assert_eq!(report.streaks_reset, 0);
    assert_eq!(report.streaks_incremented, 0);
}

// Member 7 holds a February streak of 5 and was present yesterday; the
// run on 2024-02-15 advances the counter to 6.
#[test]
fn present_yesterday_increments_streak() {
    let mut store = MemoryStore::new();
    assert!(store.add_member(member(7, "")));
    assert!(store.insert_streak_if_absent(7, d(2024, 2, 1), 5));
    store.insert_attendance_if_absent(7, d(2024, 2, 14));
    store.mark_attendance(7, d(2024, 2, 14), noon(), true).unwrap();
    let ctx = day_context_of_timestamp(1_707_976_800, FIXED_ZONE_OFFSET).unwrap();
    assert_eq!(ctx.today, d(2024, 2, 15));
    let lookups = vec![LookupOutcome::NoData];
    let report = run_daily_job(&mut store, ctx, &lookups);
    assert_eq!(store.get_streak(7, d(2024, 2, 1)), Some(6));
    assert_eq!(report.streaks_incremented, 1);
    assert_eq!(report.streaks_reset, 0);
    assert_eq!(report.anomalies, 0);
}

#[test]
fn absent_yesterday_keeps_streak() {
    let mut store = MemoryStore::new();
    assert!(store.add_member(member(7, "")));
    assert!(store.insert_streak_if_absent(7, d(2024, 2, 1), 5));
    store.insert_attendance_if_absent(7, d(2024, 2, 14));
    let ctx = day_context_of_timestamp(1_707_976_800, FIXED_ZONE_OFFSET).unwrap();
    let report = run_daily_job(&mut store, ctx, &vec![LookupOutcome::NoData]);
    assert_eq!(store.get_streak(7, d(2024, 2, 1)), Some(5));
    assert_eq!(report.streaks_incremented, 0);
}

#[test]
fn presence_without_row_is_an_anomaly() {
    let mut store = MemoryStore::new();
    assert!(store.add_member(member(8, "")));
    store.insert_attendance_if_absent(8, d(2024, 2, 14));
    store.mark_attendance(8, d(2024, 2, 14), noon(), true).unwrap();
    let ctx = day_context_of_timestamp(1_707_976_800, FIXED_ZONE_OFFSET).unwrap();
    let report = run_daily_job(&mut store, ctx, &vec![LookupOutcome::NoData]);
    assert_eq!(store.get_streak(8, d(2024, 2, 1)), None);
    assert_eq!(report.anomalies, 1);
    assert_eq!(report.streaks_incremented, 0);
}

// Member 9 has a linked handle and the platform answers with no data: the
// cached rating stays, nothing fails, the run continues.
#[test]
fn lookup_without_data_keeps_rating() {
    let mut store = MemoryStore::new();
    assert!(store.add_member(member(9, "tourist_fan")));
    let ctx = day_context_of_timestamp(1_707_976_800, FIXED_ZONE_OFFSET).unwrap();
    let report = run_daily_job(&mut store, ctx, &vec![LookupOutcome::NoData]);
    assert_eq!(store.members[0].rating, "0");
    assert_eq!(report.ratings_updated, 0);
    assert_eq!(report.members_processed, 1);
    assert_eq!(report.seeded, 1);
}

#[test]
fn successful_lookup_rewrites_rating() {
    let mut store = MemoryStore::new();
    assert!(store.add_member(member(9, "tourist_fan")));
    let ctx = day_context_of_timestamp(1_707_976_800, FIXED_ZONE_OFFSET).unwrap();
    let report = run_daily_job(&mut store, ctx, &vec![LookupOutcome::Rating(1834)]);
    assert_eq!(store.members[0].rating, "1834");
    assert_eq!(report.ratings_updated, 1);
}

#[test]
fn unlinked_member_skips_lookup() {
    let mut store = MemoryStore::new();
    assert!(store.add_member(member(10, "")));
    let ctx = day_context_of_timestamp(1_707_976_800, FIXED_ZONE_OFFSET).unwrap();
    let report = run_daily_job(&mut store, ctx, &vec![LookupOutcome::Rating(1500)]);
    assert_eq!(store.members[0].rating, "0");
    assert_eq!(report.ratings_updated, 0);
}

#[test]
fn unsupported_platform_skips_lookup() {
    let mut store = MemoryStore::new();
    let mut m = member(11, "someone");
    m.cp_platform = String::from("AtCoder");
    assert!(store.add_member(m));
    let ctx = day_context_of_timestamp(1_707_976_800, FIXED_ZONE_OFFSET).unwrap();
    let report = run_daily_job(&mut store, ctx, &vec![LookupOutcome::Rating(1500)]);
    assert_eq!(store.members[0].rating, "0");
    assert_eq!(report.ratings_updated, 0);
    assert_eq!(report.seeded, 1);
}

// One member's failing lookup leaves every other member's seeding,
// refresh and streak advance untouched: the same run with and without the
// failure gives member B the same rows.
#[test]
fn lookup_failure_is_isolated_per_member() {
    let mut s1 = MemoryStore::new();
    let mut s2 = MemoryStore::new();
    for s in [&mut s1, &mut s2] {
        assert!(s.add_member(member(1, "handle_a")));
        assert!(s.add_member(member(2, "handle_b")));
        assert!(s.insert_streak_if_absent(2, d(2024, 2, 1), 3));
        s.insert_attendance_if_absent(2, d(2024, 2, 14));
        s.mark_attendance(2, d(2024, 2, 14), noon(), true).unwrap();
    }
    let ctx = day_context_of_timestamp(1_707_976_800, FIXED_ZONE_OFFSET).unwrap();
    let ok = vec![LookupOutcome::Rating(1400), LookupOutcome::Rating(2100)];
    let failing = vec![LookupOutcome::Failed, LookupOutcome::Rating(2100)];
    let r1 = run_daily_job(&mut s1, ctx, &ok);
    let r2 = run_daily_job(&mut s2, ctx, &failing);
    assert_eq!(s1.members[1].rating, "2100");
    assert_eq!(s2.members[1].rating, "2100");
    assert_eq!(s1.get_streak(2, d(2024, 2, 1)), Some(4));
    assert_eq!(s2.get_streak(2, d(2024, 2, 1)), Some(4));
    assert!(s1.get_attendance(2, d(2024, 2, 15)).is_some());
    assert!(s2.get_attendance(2, d(2024, 2, 15)).is_some());
    assert_eq!(r1.members_processed, 2);
    assert_eq!(r2.members_processed, 2);
    assert_eq!(r1.ratings_updated, 2);
    assert_eq!(r2.ratings_updated, 1);
    // member 1's own rating differs, as only the first run got a value
    assert_eq!(s1.members[0].rating, "1400");
    assert_eq!(s2.members[0].rating, "0");
}

#[test]
fn duplicate_member_id_is_refused() {
    let mut store = MemoryStore::new();
    assert!(store.add_member(member(5, "")));
    assert!(!store.add_member(member(5, "x")));
    assert_eq!(store.members.len(), 1);
}

#[test]
fn count_present_sees_only_marked_rows() {
    let mut store = MemoryStore::new();
    store.insert_attendance_if_absent(6, d(2024, 2, 14));
    assert_eq!(store.count_present(6, d(2024, 2, 14)), 0);
    store.mark_attendance(6, d(2024, 2, 14), noon(), true).unwrap();
    assert_eq!(store.count_present(6, d(2024, 2, 14)), 1);
    assert_eq!(store.count_present(6, d(2024, 2, 15)), 0);
}

#[test]
fn linking_a_handle_touches_nothing_else() {
    let mut store = MemoryStore::new();
    assert!(store.add_member(member(3, "")));
    assert!(store.link_handle(3, String::from("new_handle"), String::from("LeetCode")));
    assert_eq!(store.members[0].leaderboard_id, "new_handle");
    assert_eq!(store.members[0].cp_platform, "LeetCode");
    assert_eq!(store.members[0].rating, "0");
    assert_eq!(store.members[0].name, "member 3");
    assert!(!store.link_handle(4, String::from("x"), String::from("LeetCode")));
}

#[test]
fn add_attendance_refuses_duplicate_key() {
    let mut store = MemoryStore::new();
    let nine = TimeOfDay { hour: 9, minute: 0, second: 0 };
    let five = TimeOfDay { hour: 17, minute: 0, second: 0 };
    let rec = store.add_attendance(4, d(2024, 2, 14), nine, five, true).unwrap();
    assert!(rec.is_present);
    assert_eq!(rec.time_in, Some(nine));
    assert_eq!(rec.time_out, Some(five));
    assert!(store.add_attendance(4, d(2024, 2, 14), nine, five, false).is_none());
    assert!(store.get_attendance(4, d(2024, 2, 14)).unwrap().is_present);
    assert!(store.add_attendance(4, d(2024, 2, 15), nine, five, false).is_some());
}

#[test]
fn set_streak_needs_a_row() {
    let mut store = MemoryStore::new();
    assert!(!store.set_streak(11, d(2024, 2, 1), 4));
    assert!(store.insert_streak_if_absent(11, d(2024, 2, 1), 0));
    assert!(store.set_streak(11, d(2024, 2, 1), 4));
    assert_eq!(store.get_streak(11, d(2024, 2, 1)), Some(4));
}
