//! Attendance records and the daily presence-marking update.

use crate::date::{Date, SECONDS_PER_DAY};
use vstd::arithmetic::div_mod::{
    lemma_div_is_ordered, lemma_fundamental_div_mod, lemma_mod_division_less_than_divisor,
};
use vstd::prelude::*;

verus! {

/// A wall-clock time of day in the fixed timezone.
#[derive(Clone, Copy, PartialEq, Eq, Structural, Debug)]
pub struct TimeOfDay {
    pub hour: i32,
    pub minute: i32,
    pub second: i32,
}

impl TimeOfDay {
    pub open spec fn wf(self) -> bool {
        &&& 0 <= self.hour < 24
        &&& 0 <= self.minute < 60
        &&& 0 <= self.second < 60
    }
}

/// The sentinel time the seeder writes into fresh rows.
pub open spec fn spec_midnight() -> TimeOfDay {
    TimeOfDay { hour: 0, minute: 0, second: 0 }
}

pub fn midnight() -> (r: TimeOfDay)
    ensures
        r == spec_midnight(),
        r.wf(),
{
    TimeOfDay { hour: 0, minute: 0, second: 0 }
}

/// The time of day a fixed-timezone second count falls on.
pub open spec fn spec_time_of_day(local: int) -> TimeOfDay {
    let s = local % (SECONDS_PER_DAY as int);
    TimeOfDay {
        hour: (s / 3600) as i32,
        minute: (s / 60 % 60) as i32,
        second: (s % 60) as i32,
    }
}

/// Splits a fixed-timezone second count into the time of day it names.
pub fn time_of_day_of_local_seconds(local: i64) -> (r: TimeOfDay)
    requires
        local >= 0,
    ensures
        r == spec_time_of_day(local as int),
        r.wf(),
{
    let s = local % SECONDS_PER_DAY;
    proof {
        lemma_mod_division_less_than_divisor(local as int, SECONDS_PER_DAY as int);
        lemma_div_is_ordered(s as int, 86399, 3600);
        lemma_fundamental_div_mod(s as int, 3600);
        lemma_mod_division_less_than_divisor(s as int, 60);
        lemma_mod_division_less_than_divisor(s as int / 60, 60);
        lemma_div_is_ordered(0, s as int, 3600);
        lemma_div_is_ordered(0, s as int, 60);
        lemma_div_is_ordered(0, s as int / 60, 60);
    }
    let hour = (s / 3600) as i32;
    let minute = (s / 60 % 60) as i32;
    let second = (s % 60) as i32;
    TimeOfDay { hour, minute, second }
}

/// One attendance row, keyed by (member, date).
#[derive(Clone, Copy, Debug)]
pub struct Attendance {
    pub member_id: i32,
    pub date: Date,
    pub is_present: bool,
    pub time_in: Option<TimeOfDay>,
    pub time_out: Option<TimeOfDay>,
}

impl Attendance {
    pub open spec fn spec_key(self) -> (int, Date) {
        (self.member_id as int, self.date)
    }
}

/// The row the nightly seeder writes for a member who has not been marked
/// yet: absent, with sentinel in/out times.
pub open spec fn spec_seeded_row(member_id: int, date: Date) -> Attendance {
    Attendance {
        member_id: member_id as i32,
        date,
        is_present: false,
        time_in: Some(spec_midnight()),
        time_out: Some(spec_midnight()),
    }
}

/// How marking presence rewrites a row: the first-seen time is set only if
/// it still holds the seeder's sentinel, the last-seen time always moves to
/// `now`, and the presence flag takes the given value.
pub open spec fn spec_marked_row(rec: Attendance, now: TimeOfDay, is_present: bool) -> Attendance {
    Attendance {
        member_id: rec.member_id,
        date: rec.date,
        is_present,
        time_in: if rec.time_in == Some(spec_midnight()) {
            Some(now)
        } else {
            rec.time_in
        },
        time_out: Some(now),
    }
}

/// Applies the presence-marking update to one row.
pub fn mark_row(rec: Attendance, now: TimeOfDay, is_present: bool) -> (r: Attendance)
    ensures
        r == spec_marked_row(rec, now, is_present),
{
    let keeps_sentinel = match rec.time_in {
        Some(t) => t.hour == 0 && t.minute == 0 && t.second == 0,
        None => false,
    };
    Attendance {
        member_id: rec.member_id,
        date: rec.date,
        is_present,
        time_in: if keeps_sentinel {
            Some(now)
        } else {
            rec.time_in
        },
        time_out: Some(now),
    }
}

/// Monthly attendance totals for one member.
#[derive(Clone, Copy, PartialEq, Eq, Structural, Debug)]
pub struct AttendanceSummary {
    pub member_id: i32,
    pub year: i32,
    pub month: i32,
    pub days_attended: i32,
}

/// Attendance data without the member key, for nested queries.
#[derive(Clone, Copy, Debug)]
pub struct AttendanceInfo {
    pub date: Date,
    pub is_present: bool,
    pub time_in: Option<TimeOfDay>,
    pub time_out: Option<TimeOfDay>,
}

/// Summary data without the member key, for nested queries.
#[derive(Clone, Copy, PartialEq, Eq, Structural, Debug)]
pub struct AttendanceSummaryInfo {
    pub year: i32,
    pub month: i32,
    pub days_attended: i32,
}

/// Input of the presence-marking mutation.
#[derive(Clone, Debug)]
pub struct MarkAttendanceInput {
    pub member_id: i32,
    pub date: Date,
    pub hmac_signature: String,
}

/// How many members were present on one day.
#[derive(Clone, Debug)]
pub struct DailyCount {
    pub date: String,
    pub count: i64,
}

/// Recent presence totals of one member.
#[derive(Clone, Debug)]
pub struct MemberAttendanceSummary {
    pub id: i32,
    pub name: String,
    pub present_days: i64,
}

/// The report the attendance-summary query assembles.
#[derive(Clone, Debug)]
pub struct AttendanceReport {
    pub daily_count: Vec<DailyCount>,
    pub member_attendance: Vec<MemberAttendanceSummary>,
    pub max_days: i64,
}

/// An attendance row joined with its member's name and year.
#[derive(Clone, Debug)]
pub struct AttendanceWithMember {
    pub member_id: i32,
    pub date: Date,
    pub is_present: bool,
    pub time_in: Option<TimeOfDay>,
    pub time_out: Option<TimeOfDay>,
    pub name: String,
    pub year: i32,
}

} // verus!
