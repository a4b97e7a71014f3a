//! The run clock: one wall-clock reading per run, shifted into the
//! organisation's fixed timezone, and the wait computation the nightly
//! scheduler sleeps on.

use crate::date::{Date, EPOCH_DAY_INDEX, MAX_LOCAL_SECONDS, SECONDS_PER_DAY, date_of_local_seconds};
use vstd::arithmetic::div_mod::{
    lemma_fundamental_div_mod, lemma_fundamental_div_mod_converse_div,
    lemma_mod_division_less_than_divisor,
};
use vstd::prelude::*;
use chrono::{Offset, TimeZone};

verus! {

/// Offset of the organisation's fixed timezone (IST) from UTC, in seconds.
pub const FIXED_ZONE_OFFSET: i64 = 19800;

/// Relies on `chrono::Utc::now`: a wall-clock reading, of which nothing can
/// be promised; callers validate the range themselves.
#[verifier::external_body]
fn now_unix_seconds() -> i64 {
    chrono::Utc::now().timestamp()
}

/// Relies on chrono_tz's `Asia::Kolkata` table: from 1945 on the zone is a
/// fixed +05:30 (19800 s) with no daylight saving, so for every instant
/// since 1970 the total offset is 19800 seconds.
#[verifier::external_body]
fn kolkata_offset_seconds(t: i64) -> (r: i64)
    requires
        0 <= t < MAX_LOCAL_SECONDS,
    ensures
        r == FIXED_ZONE_OFFSET,
{
    let utc = chrono::DateTime::from_timestamp(t, 0).unwrap().naive_utc();
    let offset = chrono_tz::Asia::Kolkata.offset_from_utc_datetime(&utc);
    offset.fix().local_minus_utc() as i64
}

/// Shifts a UTC instant into the fixed timezone through the timezone
/// table, when both the instant and its shift lie in the covered range.
pub fn local_instant(ts: i64) -> (r: Option<i64>)
    ensures
        match r {
            Some(l) => l == ts + FIXED_ZONE_OFFSET && 0 <= ts && 0 <= l < MAX_LOCAL_SECONDS,
            None => ts < 0 || ts + FIXED_ZONE_OFFSET >= MAX_LOCAL_SECONDS,
        },
{
    if !(0 <= ts && ts < MAX_LOCAL_SECONDS) {
        return None;
    }
    let offset = kolkata_offset_seconds(ts);
    let l = ts + offset;
    if l < MAX_LOCAL_SECONDS {
        Some(l)
    } else {
        None
    }
}

/// Reads the wall clock and derives the run's day context, every date in
/// the fixed timezone; `None` when the clock reading lies outside the
/// covered range of days.
pub fn current_run_instant() -> (r: Option<(i64, DayContext)>)
    ensures
        match r {
            Some((ts, c)) => {
                &&& 0 <= ts + FIXED_ZONE_OFFSET < MAX_LOCAL_SECONDS
                &&& c.wf()
                &&& c.today.spec_day_index() == EPOCH_DAY_INDEX + (ts + FIXED_ZONE_OFFSET) / (
                SECONDS_PER_DAY as int)
            },
            None => true,
        },
{
    let ts = now_unix_seconds();
    if !(0 <= ts && ts < MAX_LOCAL_SECONDS) {
        return None;
    }
    let offset = kolkata_offset_seconds(ts);
    match day_context_of_timestamp(ts, offset) {
        Some(c) => Some((ts, c)),
        None => None,
    }
}

/// The three dates one nightly run works with, all derived from a single
/// instant in the fixed timezone.
#[derive(Clone, Copy, PartialEq, Eq, Structural, Debug)]
pub struct DayContext {
    pub today: Date,
    pub yesterday: Date,
    pub month_first: Date,
}

impl DayContext {
    pub open spec fn wf(self) -> bool {
        &&& self.today.wf()
        &&& !self.today.spec_is_min()
        &&& self.yesterday == self.today.spec_pred()
        &&& self.yesterday.wf()
        &&& self.yesterday != self.today
        &&& self.month_first == self.today.spec_month_start()
    }
}

/// Shifts a UTC instant into the fixed timezone, when the result stays
/// within the covered range of days.
pub fn local_seconds(ts: i64, offset: i64) -> (r: Option<i64>)
    ensures
        match r {
            Some(l) => l == ts + offset && 0 <= l < MAX_LOCAL_SECONDS,
            None => !(0 <= ts + offset < MAX_LOCAL_SECONDS),
        },
{
    match ts.checked_add(offset) {
        Some(l) => {
            if 0 <= l && l < MAX_LOCAL_SECONDS {
                Some(l)
            } else {
                None
            }
        },
        None => None,
    }
}

/// Derives "today", "yesterday" and the month's first day from one clock
/// reading, every one of them through the same fixed-timezone shift: a run
/// can never mix dates of two timezones.
pub fn day_context_of_timestamp(ts: i64, offset: i64) -> (r: Option<DayContext>)
    ensures
        match r {
            Some(c) => {
                &&& 0 <= ts + offset < MAX_LOCAL_SECONDS
                &&& c.wf()
                &&& c.today.spec_day_index() == EPOCH_DAY_INDEX + (ts + offset) / (
                SECONDS_PER_DAY as int)
            },
            None => !(0 <= ts + offset < MAX_LOCAL_SECONDS),
        },
{
    match local_seconds(ts, offset) {
        Some(l) => {
            let today = date_of_local_seconds(l);
            proof {
                crate::date::lemma_pred_ne(today);
            }
            let yesterday = today.pred();
            let month_first = today.month_start();
            Some(DayContext { today, yesterday, month_first })
        },
        None => None,
    }
}

/// Seconds to sleep until the next 00:00:00 in the fixed timezone: the
/// unique wait in `1..=86400` that lands exactly on a midnight, and that
/// midnight opens the very next local day, so the job fires once per day
/// even when it is triggered at midnight sharp.
pub fn seconds_until_next_local_midnight(ts: i64, offset: i64) -> (r: Option<i64>)
    ensures
        match r {
            Some(s) => {
                &&& 0 <= ts + offset < MAX_LOCAL_SECONDS
                &&& 1 <= s <= SECONDS_PER_DAY
                &&& (ts + offset + s) % (SECONDS_PER_DAY as int) == 0
                &&& (ts + offset + s) / (SECONDS_PER_DAY as int) == (ts + offset) / (
                SECONDS_PER_DAY as int) + 1
            },
            None => !(0 <= ts + offset < MAX_LOCAL_SECONDS),
        },
{
    match local_seconds(ts, offset) {
        Some(l) => {
            let rest = l % SECONDS_PER_DAY;
            let wait = SECONDS_PER_DAY - rest;
            proof {
                let d = SECONDS_PER_DAY as int;
                lemma_fundamental_div_mod(l as int, d);
                lemma_mod_division_less_than_divisor(l as int, d);
                assert(l + wait == (l as int / d + 1) * d + 0) by (nonlinear_arith)
                    requires
                        l == d * (l as int / d) + l as int % d && wait == d - l as int % d && d
                            > 0,
                ;
                lemma_fundamental_div_mod_converse_div(l + wait, d, l as int / d + 1, 0);
            }
            Some(wait)
        },
        None => None,
    }
}

} // verus!
