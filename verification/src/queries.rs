//! The compute side of the attendance queries: which member key a lookup
//! request names, how a summary date range is validated, and how fetched
//! rows are assembled into the report.

use crate::attendance::{AttendanceReport, DailyCount, MemberAttendanceSummary};
use crate::date::{Date, date_iso_bytes, date_le, parse_date, spec_date_iso_bytes, spec_date_le, spec_parse_date};
use crate::numfmt::ascii_string;
use vstd::prelude::*;
use vstd::string::StringSliceAdditionalSpecFns;

verus! {

/// The key an attendance lookup goes by.
#[derive(Clone, Debug)]
pub enum AttendanceKey {
    ById(i32),
    ByRollNo(String),
    ByDiscord(String),
}

/// Which key an attendance request names: the member id wins over the roll
/// number, the roll number over the discord id; a request naming none is
/// refused.
pub open spec fn spec_attendance_lookup_key(
    member_id: Option<i32>,
    roll_no: Option<String>,
    discord_id: Option<String>,
) -> Option<AttendanceKey> {
    match member_id {
        Some(id) => Some(AttendanceKey::ById(id)),
        None => match roll_no {
            Some(roll) => Some(AttendanceKey::ByRollNo(roll)),
            None => match discord_id {
                Some(d) => Some(AttendanceKey::ByDiscord(d)),
                None => None,
            },
        },
    }
}

/// Picks the lookup key of an attendance request; `None` means the
/// request named no key at all and must be refused.
pub fn attendance_lookup_key(
    member_id: Option<i32>,
    roll_no: Option<String>,
    discord_id: Option<String>,
) -> (r: Option<AttendanceKey>)
    ensures
        r == spec_attendance_lookup_key(member_id, roll_no, discord_id),
{
    match member_id {
        Some(id) => Some(AttendanceKey::ById(id)),
        None => match roll_no {
            Some(roll) => Some(AttendanceKey::ByRollNo(roll)),
            None => match discord_id {
                Some(d) => Some(AttendanceKey::ByDiscord(d)),
                None => None,
            },
        },
    }
}

/// Why a summary date range was refused.
#[derive(Clone, Copy, PartialEq, Eq, Structural, Debug)]
pub enum RangeError {
    /// The start date is not a valid `YYYY-MM-DD` day.
    InvalidStart,
    /// The end date is not a valid `YYYY-MM-DD` day.
    InvalidEnd,
    /// Both parse, but the start lies after the end.
    StartAfterEnd,
}

/// Validates the summary query's date range: both bounds must parse as
/// `YYYY-MM-DD` and the start must not lie after the end; each failure is
/// reported by its own error, the start checked first.
pub fn validate_summary_range(start_date: &str, end_date: &str) -> (r: Result<
    (Date, Date),
    RangeError,
>)
    ensures
        match r {
            Ok((s, e)) => spec_parse_date(start_date.spec_bytes()) == Some(s) && spec_parse_date(
                end_date.spec_bytes(),
            ) == Some(e) && spec_date_le(s, e),
            Err(RangeError::InvalidStart) => spec_parse_date(start_date.spec_bytes()) is None,
            Err(RangeError::InvalidEnd) => spec_parse_date(start_date.spec_bytes()) is Some
                && spec_parse_date(end_date.spec_bytes()) is None,
            Err(RangeError::StartAfterEnd) => {
                &&& spec_parse_date(start_date.spec_bytes()) is Some
                &&& spec_parse_date(end_date.spec_bytes()) is Some
                &&& !spec_date_le(
                    spec_parse_date(start_date.spec_bytes()).unwrap(),
                    spec_parse_date(end_date.spec_bytes()).unwrap(),
                )
            },
        },
{
    let start = match parse_date(start_date) {
        Some(d) => d,
        None => {
            return Err(RangeError::InvalidStart);
        },
    };
    let end = match parse_date(end_date) {
        Some(d) => d,
        None => {
            return Err(RangeError::InvalidEnd);
        },
    };
    if !date_le(start, end) {
        return Err(RangeError::StartAfterEnd);
    }
    Ok((start, end))
}

/// One row of the per-day presence aggregation.
#[derive(Clone, Copy, Debug)]
pub struct DailyPresentRow {
    pub date: Date,
    pub total_present: Option<i64>,
}

/// One row of the per-member presence aggregation.
#[derive(Clone, Debug)]
pub struct MemberPresenceRow {
    pub id: i32,
    pub name: String,
    pub present_days: i64,
}

/// The characters of a date's ISO rendering.
pub open spec fn spec_date_iso_chars(d: Date) -> Seq<char> {
    spec_date_iso_bytes(d).map_values(|b: u8| b as char)
}

/// Renders a date as its ISO string.
pub fn date_iso_string(d: Date) -> (r: String)
    requires
        d.wf(),
    ensures
        r@ == spec_date_iso_chars(d),
{
    let bytes = date_iso_bytes(d);
    proof {
        assert forall|i: int| 0 <= i < bytes@.len() implies bytes@[i] < 128 by {
            assert(bytes@ == spec_date_iso_bytes(d));
        }
    }
    ascii_string(&bytes)
}

/// Assembles the attendance report from the three aggregations the query
/// fetches: each day keeps its ISO date and its present count with a
/// missing count read as zero, each member keeps id, name and presence
/// total, and the distinct-day maximum is carried through.
pub fn build_attendance_report(
    daily: Vec<DailyPresentRow>,
    members: Vec<MemberPresenceRow>,
    max_days: i64,
) -> (r: AttendanceReport)
    requires
        forall|i: int| 0 <= i < daily@.len() ==> (#[trigger] daily@[i]).date.wf(),
    ensures
        r.daily_count@.len() == daily@.len(),
        forall|i: int|
            0 <= i < daily@.len() ==> (#[trigger] r.daily_count@[i]).date@ == spec_date_iso_chars(
                daily@[i].date,
            ) && r.daily_count@[i].count == (match daily@[i].total_present {
                Some(c) => c,
                None => 0,
            }),
        r.member_attendance@.len() == members@.len(),
        forall|i: int|
            0 <= i < members@.len() ==> (#[trigger] r.member_attendance@[i]).id == members@[i].id
                && r.member_attendance@[i].name == members@[i].name
                && r.member_attendance@[i].present_days == members@[i].present_days,
        r.max_days == max_days,
{
    let ghost daily0 = daily@;
    let ghost members0 = members@;
    let mut daily_count: Vec<DailyCount> = Vec::new();
    let n = daily.len();
    let mut i: usize = 0;
    while i < n
        invariant
            n == daily0.len(),
            daily@ == daily0,
            i <= n,
            forall|j: int| 0 <= j < daily0.len() ==> (#[trigger] daily0[j]).date.wf(),
            daily_count@.len() == i,
            forall|j: int|
                0 <= j < i ==> (#[trigger] daily_count@[j]).date@ == spec_date_iso_chars(
                    daily0[j].date,
                ) && daily_count@[j].count == (match daily0[j].total_present {
                    Some(c) => c,
                    None => 0,
                }),
        decreases n - i,
    {
        let row = daily[i];
        let count = match row.total_present {
            Some(c) => c,
            None => 0,
        };
        daily_count.push(DailyCount { date: date_iso_string(row.date), count });
        i = i + 1;
    }
    let mut member_attendance: Vec<MemberAttendanceSummary> = Vec::new();
    let mut rest = members;
    while rest.len() > 0
        invariant
            member_attendance@.len() + rest@.len() == members0.len(),
            rest@ == members0.subrange(member_attendance@.len() as int, members0.len() as int),
            forall|j: int|
                0 <= j < member_attendance@.len() ==> (#[trigger] member_attendance@[j]).id
                    == members0[j].id && member_attendance@[j].name == members0[j].name
                    && member_attendance@[j].present_days == members0[j].present_days,
        decreases rest@.len(),
    {
        let row = rest.remove(0);
        proof {
            assert(row == members0[member_attendance@.len() as int]);
        }
        member_attendance.push(
            MemberAttendanceSummary { id: row.id, name: row.name, present_days: row.present_days },
        );
        proof {
            assert(rest@ =~= members0.subrange(
                member_attendance@.len() as int,
                members0.len() as int,
            ));
        }
    }
    AttendanceReport { daily_count, member_attendance, max_days }
}

} // verus!
