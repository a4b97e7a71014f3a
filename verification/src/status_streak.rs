//! The status-update streak: a daily counter with an all-time maximum,
//! advanced by the update mutation.

use crate::member::StreakUpdate;
use vstd::prelude::*;

verus! {

/// A member's status-update streak totals.
#[derive(Clone, Copy, PartialEq, Eq, Structural, Debug)]
pub struct StatusUpdateStreak {
    pub member_id: i32,
    pub current_streak: i32,
    pub max_streak: i32,
}

/// Streak totals without the member key, for nested queries.
#[derive(Clone, Copy, PartialEq, Eq, Structural, Debug)]
pub struct StatusUpdateStreakInfo {
    pub current_streak: i32,
    pub max_streak: i32,
}

/// Input of the streak-increment mutation.
#[derive(Clone, Debug)]
pub struct IncrementStreakInput {
    pub member_id: Option<i32>,
    pub discord_id: Option<String>,
}

/// The streak transition of one update report: a sent update extends the
/// streak and pushes the maximum up when passed; a missed one resets the
/// streak and leaves the maximum.  Missing stored values count as zero.
pub open spec fn spec_status_next(
    streak: Option<i32>,
    max_streak: Option<i32>,
    has_sent_update: bool,
) -> (i32, i32) {
    let cur = match streak {
        Some(n) => n,
        None => 0,
    };
    let mx = match max_streak {
        Some(n) => n,
        None => 0,
    };
    if has_sent_update {
        let ns = (cur + 1) as i32;
        (ns, if ns > mx {
            ns
        } else {
            mx
        })
    } else {
        (0, mx)
    }
}

/// Computes the next (streak, max streak) pair for one update report.
pub fn status_streak_next(
    streak: Option<i32>,
    max_streak: Option<i32>,
    has_sent_update: bool,
) -> (r: (i32, i32))
    requires
        match streak {
            Some(n) => n < i32::MAX,
            None => true,
        },
    ensures
        r == spec_status_next(streak, max_streak, has_sent_update),
{
    let cur = match streak {
        Some(n) => n,
        None => 0,
    };
    let mx = match max_streak {
        Some(n) => n,
        None => 0,
    };
    if has_sent_update {
        let ns = cur + 1;
        (ns, if ns > mx {
            ns
        } else {
            mx
        })
    } else {
        (0, mx)
    }
}

pub open spec fn spec_status_ids_unique(rows: Seq<StreakUpdate>) -> bool {
    forall|i: int, j: int| 0 <= i < j < rows.len() ==> rows[i].id != rows[j].id
}

/// The update mutation's effect on the streak table: an existing row takes
/// the transition of [`spec_status_next`]; a member without a row gets a
/// fresh all-zero row, whatever the report said.
pub fn apply_status_update(rows: &mut Vec<StreakUpdate>, id: i32, has_sent_update: bool) -> (r:
    StreakUpdate)
    requires
        spec_status_ids_unique(old(rows)@),
        forall|i: int|
            0 <= i < old(rows)@.len() ==> (match #[trigger] old(rows)@[i].streak {
                Some(n) => n < i32::MAX,
                None => true,
            }),
    ensures
        spec_status_ids_unique(final(rows)@),
        r.id == id,
        (forall|i: int| 0 <= i < old(rows)@.len() ==> old(rows)@[i].id != id) ==> {
            let fresh = StreakUpdate { id, streak: Some(0), max_streak: Some(0) };
            final(rows)@ == old(rows)@.push(fresh) && r == fresh
        },
        forall|i: int|
            0 <= i < old(rows)@.len() && old(rows)@[i].id == id ==> {
                let nv = spec_status_next(
                    old(rows)@[i].streak,
                    old(rows)@[i].max_streak,
                    has_sent_update,
                );
                let row = StreakUpdate { id, streak: Some(nv.0), max_streak: Some(nv.1) };
                final(rows)@ == old(rows)@.update(i, row) && r == row
            },
{
    let n = rows.len();
    let mut idx: usize = 0;
    while idx < n
        invariant
            rows@ == old(rows)@,
            spec_status_ids_unique(rows@),
            forall|i: int|
                0 <= i < rows@.len() ==> (match #[trigger] rows@[i].streak {
                    Some(n) => n < i32::MAX,
                    None => true,
                }),
            n == rows@.len(),
            idx <= n,
            forall|j: int| 0 <= j < idx ==> rows@[j].id != id,
        decreases n - idx,
    {
        if rows[idx].id == id {
            let nv = status_streak_next(rows[idx].streak, rows[idx].max_streak, has_sent_update);
            let row = StreakUpdate { id, streak: Some(nv.0), max_streak: Some(nv.1) };
            rows.set(idx, row);
            return row;
        }
        idx = idx + 1;
    }
    let fresh = StreakUpdate { id, streak: Some(0), max_streak: Some(0) };
    rows.push(fresh);
    fresh
}

} // verus!
