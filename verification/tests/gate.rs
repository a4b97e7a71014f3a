use hmac::{Hmac, KeyInit, Mac};
use root::attendance::{Attendance, TimeOfDay, mark_row};
use root::date::Date;
use root::member::StreakUpdate;
use root::queries::{
    AttendanceKey, RangeError, attendance_lookup_key, build_attendance_report, date_iso_string,
    validate_summary_range, DailyPresentRow, MemberPresenceRow,
};
use root::roster;
use root::signature::{
    edit_member_message, mark_attendance_message, signature_matches, verify_signature,
};
use root::status_streak::{apply_status_update, status_streak_next};
use sha2::Sha256;

fn d(year: i32, month: i32, day: i32) -> Date {
    Date { year, month, day }
}

fn reference_tag(key: &[u8], msg: &[u8]) -> Vec<u8> {
    let mut mac = <Hmac<Sha256> as KeyInit>::new_from_slice(key).unwrap();
    mac.update(msg);
    mac.finalize().into_bytes().to_vec()
}

#[test]
fn accepts_the_genuine_signature() {
    let secret = b"SECRET-REDACTED";
    let msg = edit_member_message(17, "north", 3, "aa:bb:cc:dd:ee:ff", "disc#123", 2);
    let tag = reference_tag(secret, &msg);
    let sig = hex::encode(&tag);
    assert!(verify_signature(secret, &msg, &sig));
    let sig_upper = hex::encode_upper(&tag);
    assert!(verify_signature(secret, &msg, &sig_upper));
}

#[test]
fn rejects_a_tampered_signature() {
    let secret = b"SECRET-REDACTED";
    let msg = mark_attendance_message(42, d(2024, 3, 1), true);
    let tag = reference_tag(secret, &msg);
    let mut wrong = tag.clone();
    wrong[0] ^= 1;
    assert!(!verify_signature(secret, &msg, &hex::encode(&wrong)));
    assert!(!verify_signature(secret, &msg, "zz00"));
    assert!(!verify_signature(secret, &msg, "abc"));
    let other_msg = mark_attendance_message(42, d(2024, 3, 1), false);
    assert!(!verify_signature(secret, &other_msg, &hex::encode(&tag)));
}

#[test]
fn signature_matches_decodes_hex() {
    let expected = vec![0xde, 0xad, 0xbe, 0xef];
    assert!(signature_matches(&expected, "deadbeef"));
    assert!(signature_matches(&expected, "DEADBEEF"));
    assert!(!signature_matches(&expected, "deadbeee"));
    assert!(!signature_matches(&expected, "deadbee"));
    assert!(!signature_matches(&expected, "xxddbeef"));
}

#[test]
fn messages_concatenate_fields_without_separators() {
    let msg = edit_member_message(17, "north", 3, "mac", "disc", 2);
    assert_eq!(msg, b"17north3macdisc2".to_vec());
    let msg2 = mark_attendance_message(42, d(2024, 3, 1), true);
    assert_eq!(msg2, b"422024-03-01true".to_vec());
    let msg3 = mark_attendance_message(-5, d(1999, 12, 31), false);
    assert_eq!(msg3, b"-51999-12-31false".to_vec());
}

#[test]
fn status_streak_transitions() {
    assert_eq!(status_streak_next(Some(4), Some(9), true), (5, 9));
    assert_eq!(status_streak_next(Some(9), Some(9), true), (10, 10));
    assert_eq!(status_streak_next(Some(4), Some(9), false), (0, 9));
    assert_eq!(status_streak_next(None, None, true), (1, 1));
    assert_eq!(status_streak_next(None, Some(3), false), (0, 3));
}

#[test]
fn status_update_upserts() {
    let mut rows: Vec<StreakUpdate> = Vec::new();
    let fresh = apply_status_update(&mut rows, 12, true);
    assert_eq!((fresh.id, fresh.streak, fresh.max_streak), (12, Some(0), Some(0)));
    assert_eq!(rows.len(), 1);
    let advanced = apply_status_update(&mut rows, 12, true);
    assert_eq!((advanced.streak, advanced.max_streak), (Some(1), Some(1)));
    let reset = apply_status_update(&mut rows, 12, false);
    assert_eq!((reset.streak, reset.max_streak), (Some(0), Some(1)));
    assert_eq!(rows.len(), 1);
}

#[test]
fn edit_merge_keeps_empty_fields() {
    let m = roster::Member {
        id: 3,
        rollno: String::from("R3"),
        name: String::from("someone"),
        hostel: String::from("east"),
        email: String::from("s@example.org"),
        sex: String::from("M"),
        year: 2,
        macaddress: String::from("old-mac"),
        discord_id: Some(String::from("old-disc")),
        group_id: Some(4),
    };
    let merged = roster::edit_member_merge(
        m,
        String::from(""),
        0,
        String::from("new-mac"),
        String::from(""),
        0,
    );
    assert_eq!(merged.hostel, "east");
    assert_eq!(merged.year, 2);
    assert_eq!(merged.macaddress, "new-mac");
    assert_eq!(merged.discord_id, Some(String::from("old-disc")));
    assert_eq!(merged.group_id, Some(4));
    assert_eq!(merged.rollno, "R3");
}

#[test]
fn edit_merge_replaces_given_fields() {
    let m = roster::Member {
        id: 3,
        rollno: String::from("R3"),
        name: String::from("someone"),
        hostel: String::from("east"),
        email: String::from("s@example.org"),
        sex: String::from("M"),
        year: 2,
        macaddress: String::from("old-mac"),
        discord_id: None,
        group_id: None,
    };
    let merged = roster::edit_member_merge(
        m,
        String::from("west"),
        4,
        String::from(""),
        String::from("disc"),
        9,
    );
    assert_eq!(merged.hostel, "west");
    assert_eq!(merged.year, 4);
    assert_eq!(merged.macaddress, "old-mac");
    assert_eq!(merged.discord_id, Some(String::from("disc")));
    assert_eq!(merged.group_id, Some(9));
}

#[test]
fn lookup_key_precedence() {
    match attendance_lookup_key(Some(4), Some(String::from("R4")), None) {
        Some(AttendanceKey::ById(4)) => {},
        _ => panic!("member id must win"),
    }
    match attendance_lookup_key(None, Some(String::from("R4")), Some(String::from("d"))) {
        Some(AttendanceKey::ByRollNo(r)) => assert_eq!(r, "R4"),
        _ => panic!("roll number must win over discord id"),
    }
    match attendance_lookup_key(None, None, Some(String::from("d"))) {
        Some(AttendanceKey::ByDiscord(r)) => assert_eq!(r, "d"),
        _ => panic!("discord id must be used last"),
    }
    assert!(attendance_lookup_key(None, None, None).is_none());
}

#[test]
fn summary_range_errors() {
    assert_eq!(validate_summary_range("2024-13-01", "2024-03-05"), Err(RangeError::InvalidStart));
    assert_eq!(validate_summary_range("2024-03-01", "bad"), Err(RangeError::InvalidEnd));
    assert_eq!(validate_summary_range("2024-03-05", "2024-03-01"), Err(RangeError::StartAfterEnd));
    assert_eq!(
        validate_summary_range("2024-03-01", "2024-03-05"),
        Ok((d(2024, 3, 1), d(2024, 3, 5)))
    );
    assert_eq!(
        validate_summary_range("2024-03-01", "2024-03-01"),
        Ok((d(2024, 3, 1), d(2024, 3, 1)))
    );
}

#[test]
fn iso_rendering() {
    assert_eq!(date_iso_string(d(2024, 3, 1)), "2024-03-01");
    assert_eq!(date_iso_string(d(1999, 12, 31)), "1999-12-31");
}

#[test]
fn report_assembly() {
    let daily = vec![
        DailyPresentRow { date: d(2024, 3, 1), total_present: Some(5) },
        DailyPresentRow { date: d(2024, 3, 2), total_present: None },
    ];
    let members = vec![
        MemberPresenceRow { id: 1, name: String::from("a"), present_days: 10 },
        MemberPresenceRow { id: 2, name: String::from("b"), present_days: 0 },
    ];
    let report = build_attendance_report(daily, members, 12);
    assert_eq!(report.max_days, 12);
    assert_eq!(report.daily_count.len(), 2);
    assert_eq!(report.daily_count[0].date, "2024-03-01");
    assert_eq!(report.daily_count[0].count, 5);
    assert_eq!(report.daily_count[1].date, "2024-03-02");
    assert_eq!(report.daily_count[1].count, 0);
    assert_eq!(report.member_attendance.len(), 2);
    assert_eq!(report.member_attendance[0].id, 1);
    assert_eq!(report.member_attendance[0].name, "a");
    assert_eq!(report.member_attendance[1].present_days, 0);
}

#[test]
fn projects_serial_ids_and_removal() {
    let mut table = root::projects::ProjectsTable::new();
    let p1 = table.set_active_project(4, String::from("compiler"));
    let p2 = table.set_active_project(5, String::from("kernel"));
    assert_eq!(p1.id, 1);
    assert_eq!(p2.id, 2);
    assert_eq!(p2.member_id, 5);
    assert_eq!(p2.project_title, Some(String::from("kernel")));
    let removed = table.remove_active_project(1).unwrap();
    assert_eq!(removed.member_id, 4);
    assert_eq!(removed.project_title, Some(String::from("compiler")));
    assert!(table.remove_active_project(1).is_none());
    assert_eq!(table.rows.len(), 1);
    let p3 = table.set_active_project(4, String::from("again"));
    assert_eq!(p3.id, 3);
}

#[test]
fn query_record_types_round_out_the_api() {
    let info = root::attendance::AttendanceInfo {
        date: d(2024, 3, 1),
        is_present: true,
        time_in: Some(TimeOfDay { hour: 9, minute: 0, second: 0 }),
        time_out: None,
    };
    assert!(info.is_present);
    let summary = root::attendance::AttendanceSummary {
        member_id: 1,
        year: 2024,
        month: 3,
        days_attended: 12,
    };
    let nested = root::attendance::AttendanceSummaryInfo {
        year: summary.year,
        month: summary.month,
        days_attended: summary.days_attended,
    };
    assert_eq!(nested.days_attended, 12);
    let input = root::attendance::MarkAttendanceInput {
        member_id: 1,
        date: d(2024, 3, 1),
        hmac_signature: String::from("00"),
    };
    assert_eq!(input.date, d(2024, 3, 1));
    let joined = root::attendance::AttendanceWithMember {
        member_id: 1,
        date: d(2024, 3, 1),
        is_present: false,
        time_in: None,
        time_out: None,
        name: String::from("a"),
        year: 2,
    };
    assert_eq!(joined.year, 2);
    let streaks = root::status_streak::StatusUpdateStreak {
        member_id: 1,
        current_streak: 2,
        max_streak: 5,
    };
    let streaks_info = root::status_streak::StatusUpdateStreakInfo {
        current_streak: streaks.current_streak,
        max_streak: streaks.max_streak,
    };
    assert_eq!(streaks_info.max_streak, 5);
    let incr = root::status_streak::IncrementStreakInput {
        member_id: Some(1),
        discord_id: None,
    };
    assert_eq!(incr.member_id, Some(1));
}

#[test]
fn mark_row_applies_update_rule() {
    let rec = Attendance {
        member_id: 1,
        date: d(2024, 3, 1),
        is_present: false,
        time_in: Some(TimeOfDay { hour: 0, minute: 0, second: 0 }),
        time_out: Some(TimeOfDay { hour: 0, minute: 0, second: 0 }),
    };
    let now = TimeOfDay { hour: 9, minute: 30, second: 0 };
    let marked = mark_row(rec, now, true);
    assert_eq!(marked.time_in, Some(now));
    assert_eq!(marked.time_out, Some(now));
    assert!(marked.is_present);
    let none_rec = Attendance { time_in: None, ..rec };
    let marked2 = mark_row(none_rec, now, true);
    assert_eq!(marked2.time_in, None);
    assert_eq!(marked2.time_out, Some(now));
}
