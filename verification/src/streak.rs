//! The monthly attendance streak state machine.
//!
//! A member's streak for a month is a counter that is created at zero on
//! the first run of the month and incremented on every later run whose
//! previous day shows presence.  Absence never resets it mid-month; only
//! the month boundary does.

use vstd::prelude::*;

verus! {

/// What one daily evaluation did to a member's streak row.
#[derive(Clone, Copy, PartialEq, Eq, Structural, Debug)]
pub enum StreakEvent {
    /// Month start, no row yet: a zero row is created.
    MonthReset,
    /// Month start, row already there: left untouched.
    MonthKept,
    /// The previous day shows presence: the counter advances.
    Incremented,
    /// No presence on the previous day: nothing changes.
    NoPresence,
    /// Presence without a streak row, or an impossible presence count:
    /// reported, nothing mutated.
    Anomaly,
}

/// A streak row's value after one daily evaluation, with the event to log.
#[derive(Clone, Copy, PartialEq, Eq, Structural, Debug)]
pub struct StreakOutcome {
    pub state: Option<i32>,
    pub event: StreakEvent,
}

/// One daily transition of the streak state machine.
///
/// On the first day of a month the row is created at zero if absent and
/// kept as it is otherwise; the counter is never advanced on that run,
/// because the previous day belongs to the closed month.  On any other day
/// exactly one present record for the previous day advances the counter by
/// one, a count of zero changes nothing, and any other count is an anomaly.
/// A missing row outside a month start is an anomaly as well.
pub open spec fn spec_streak_step(
    is_month_start: bool,
    present_count: int,
    existing: Option<i32>,
) -> StreakOutcome {
    if is_month_start {
        match existing {
            None => StreakOutcome { state: Some(0), event: StreakEvent::MonthReset },
            Some(n) => StreakOutcome { state: Some(n), event: StreakEvent::MonthKept },
        }
    } else if present_count == 1 {
        match existing {
            Some(n) => StreakOutcome {
                state: Some((n + 1) as i32),
                event: StreakEvent::Incremented,
            },
            None => StreakOutcome { state: None, event: StreakEvent::Anomaly },
        }
    } else if present_count == 0 {
        StreakOutcome { state: existing, event: StreakEvent::NoPresence }
    } else {
        StreakOutcome { state: existing, event: StreakEvent::Anomaly }
    }
}

/// Evaluates one member's streak transition for one run.
pub fn streak_step(is_month_start: bool, present_count: i64, existing: Option<i32>) -> (r:
    StreakOutcome)
    requires
        match existing {
            Some(n) => n < i32::MAX,
            None => true,
        },
    ensures
        r == spec_streak_step(is_month_start, present_count as int, existing),
{
    if is_month_start {
        match existing {
            None => StreakOutcome { state: Some(0), event: StreakEvent::MonthReset },
            Some(n) => StreakOutcome { state: Some(n), event: StreakEvent::MonthKept },
        }
    } else if present_count == 1 {
        match existing {
            Some(n) => StreakOutcome { state: Some(n + 1), event: StreakEvent::Incremented },
            None => StreakOutcome { state: None, event: StreakEvent::Anomaly },
        }
    } else if present_count == 0 {
        StreakOutcome { state: existing, event: StreakEvent::NoPresence }
    } else {
        StreakOutcome { state: existing, event: StreakEvent::Anomaly }
    }
}

/// Streak reset law: on the first day of a month the post-run counter is
/// zero when no row existed and exactly the old value when one did — it is
/// never incremented on the same run as a reset, whatever the previous
/// day's presence count was.
pub proof fn lemma_streak_reset_law(present_count: int, existing: Option<i32>)
    ensures
        spec_streak_step(true, present_count, existing).state == (match existing {
            None => Some(0i32),
            Some(n) => Some(n),
        }),
        spec_streak_step(true, present_count, existing).event != StreakEvent::Incremented,
{
}

/// Streak increment law: outside a month start, a streak of `n` with
/// exactly one present record for the previous day becomes `n + 1`, and
/// with zero present records it stays exactly `n` — absence does not reset
/// the counter.
pub proof fn lemma_streak_increment_law(n: i32, present_count: int)
    requires
        n < i32::MAX,
    ensures
        present_count == 1 ==> spec_streak_step(false, present_count, Some(n)).state == Some(
            (n + 1) as i32,
        ),
        present_count == 0 ==> spec_streak_step(false, present_count, Some(n)).state == Some(n),
{
}

/// The streak state machine never invents a row outside a month start and
/// never drops one: a missing row stays missing unless the run is a month
/// start, and an existing row never disappears.
pub proof fn lemma_streak_row_stability(
    is_month_start: bool,
    present_count: int,
    existing: Option<i32>,
)
    ensures
        existing is None && !is_month_start ==> spec_streak_step(
            is_month_start,
            present_count,
            existing,
        ).state is None,
        existing is Some ==> spec_streak_step(is_month_start, present_count, existing).state
            is Some,
{
}

} // verus!
