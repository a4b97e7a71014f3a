//! The nightly job: one run seeds attendance, refreshes leaderboard
//! ratings and advances the streak state machine for every member of the
//! roster, each member independently of the others.
//!
//! The external lookups themselves happen outside this function; the run
//! takes their outcomes as values and is verified for every combination of
//! them, which is what makes the per-member fault isolation provable.

use crate::attendance::spec_seeded_row;
use crate::clock::DayContext;
use crate::date::Date;
use crate::kv::{Keyed, lemma_assoc_map_at, lemma_assoc_map_dom};
use crate::member::Member;
use crate::store::{MemoryStore, spec_rating_refreshed};
use crate::streak::{StreakEvent, streak_step};
use vstd::prelude::*;

verus! {

/// What one leaderboard lookup came back with.
#[derive(Clone, Copy, PartialEq, Eq, Structural, Debug)]
pub enum LookupOutcome {
    /// The platform returned a current rating.
    Rating(i64),
    /// The platform has no data for this handle; not an error.
    NoData,
    /// Network, timeout or parse failure.
    Failed,
}

/// The per-run summary the orchestrator reports.
#[derive(Clone, Copy, PartialEq, Eq, Structural, Debug)]
pub struct RunReport {
    pub members_processed: usize,
    pub seeded: usize,
    pub ratings_updated: usize,
    pub streaks_reset: usize,
    pub streaks_incremented: usize,
    pub anomalies: usize,
}

/// The rating value a run writes for a member: only when the member linked
/// a handle and the lookup returned a value.  `NoData` and failures alike
/// leave the member untouched.
pub open spec fn spec_rating_to_apply(m: Member, lk: LookupOutcome) -> Option<int> {
    if m.spec_linked() {
        match lk {
            LookupOutcome::Rating(v) => Some(v as int),
            LookupOutcome::NoData => None,
            LookupOutcome::Failed => None,
        }
    } else {
        None
    }
}

/// The refresher's per-member decision, for any store backend: the rating
/// to write, if the outcome carries one and the member opted in.
pub fn rating_to_apply(m: &Member, lk: LookupOutcome) -> (r: Option<i64>)
    ensures
        match r {
            Some(v) => spec_rating_to_apply(*m, lk) == Some(v as int),
            None => spec_rating_to_apply(*m, lk) is None,
        },
{
    if m.linked() {
        match lk {
            LookupOutcome::Rating(v) => Some(v),
            LookupOutcome::NoData => None,
            LookupOutcome::Failed => None,
        }
    } else {
        None
    }
}

/// The streak counter of (member, current month) after a run, computed
/// from the pre-run store: a month start creates a zero row or keeps the
/// existing one; any other day advances an existing row exactly when the
/// previous day shows presence, a counter at the machine maximum staying
/// put as an anomaly.
pub open spec fn spec_streak_post(pre: MemoryStore, id: int, ctx: DayContext) -> Option<i32> {
    let old_val = pre.spec_streak_value(id, ctx.month_first);
    let present = pre.spec_present_count(id, ctx.yesterday);
    if ctx.today.day == 1 {
        match old_val {
            None => Some(0i32),
            Some(n) => Some(n),
        }
    } else if present == 1 {
        match old_val {
            Some(n) => if n < i32::MAX {
                Some((n + 1) as i32)
            } else {
                Some(n)
            },
            None => None,
        }
    } else {
        old_val
    }
}

/// Some member among the first `upto` carries this id.
spec fn spec_id_among(members: Seq<Member>, upto: int, id: int) -> bool {
    exists|j: int| 0 <= j < upto && (#[trigger] members[j]).id as int == id
}

proof fn lemma_id_among_step(members: Seq<Member>, i: int, id: int)
    requires
        0 <= i < members.len(),
    ensures
        spec_id_among(members, i + 1, id) == (spec_id_among(members, i, id) || members[i].id as int
            == id),
{
    if spec_id_among(members, i + 1, id) {
        let j = choose|j: int| 0 <= j < i + 1 && (#[trigger] members[j]).id as int == id;
        if j < i {
            assert(spec_id_among(members, i, id));
        }
    }
    if spec_id_among(members, i, id) {
        let j = choose|j: int| 0 <= j < i && (#[trigger] members[j]).id as int == id;
        assert(0 <= j < i + 1 && members[j].id as int == id);
    }
    if members[i].id as int == id {
        assert(0 <= i < i + 1 && members[i].id as int == id);
    }
}

proof fn lemma_id_among_all(members: Seq<Member>)
    ensures
        forall|id: int|
            spec_id_among(members, members.len() as int, id) <==> #[trigger] crate::kv::assoc_map(
                members,
            ).contains_key(id),
{
    lemma_assoc_map_dom::<Member>(members);
}

/// Everything one run promises about the post-run store, over the pre-run
/// store, the lookup outcomes (one per roster position) and the run's day
/// context.
pub open spec fn spec_run_post(
    pre: MemoryStore,
    post: MemoryStore,
    lookups: Seq<LookupOutcome>,
    ctx: DayContext,
) -> bool {
    &&& post.members@.len() == pre.members@.len()
    // Attendance rows are never lost or rewritten by a run,
    &&& (forall|k: (int, Date)| #[trigger]
        pre.att_map().contains_key(k) ==> post.att_map().contains_key(k) && post.att_map()[k]
            == pre.att_map()[k])
    // every new row is today's seeded default for a roster member,
    &&& (forall|k: (int, Date)| #[trigger]
        post.att_map().contains_key(k) ==> pre.att_map().contains_key(k) || (k.1 == ctx.today
            && pre.member_map().contains_key(k.0) && post.att_map()[k] == spec_seeded_row(
            k.0,
            ctx.today,
        )))
    // and every roster member has a row for today.
    &&& (forall|i: int|
        0 <= i < pre.members@.len() ==> post.att_map().contains_key(
            ((#[trigger] pre.members@[i]).id as int, ctx.today),
        ))
    // Streak rows outside (roster member, this month) are untouched,
    &&& (forall|k: (int, Date)|
        !(k.1 == ctx.month_first && pre.member_map().contains_key(k.0)) ==> (#[trigger]
        post.streak_rows().contains_key(k) == pre.streak_rows().contains_key(k) && (
        pre.streak_rows().contains_key(k) ==> post.streak_rows()[k] == pre.streak_rows()[k])))
    // each member's month counter lands exactly on the machine's verdict,
    &&& (forall|i: int|
        0 <= i < pre.members@.len() ==> post.spec_streak_value(
            (#[trigger] pre.members@[i]).id as int,
            ctx.month_first,
        ) == spec_streak_post(pre, pre.members@[i].id as int, ctx))
    // and each member record is unchanged but for an applied rating.
    &&& (forall|i: int|
        0 <= i < pre.members@.len() ==> (match spec_rating_to_apply(
            #[trigger] pre.members@[i],
            lookups[i],
        ) {
            Some(v) => spec_rating_refreshed(pre.members@[i], post.members@[i], v),
            None => post.members@[i] == pre.members@[i],
        }))
}

/// Seeding count of a run prefix: members whose today-row did not exist.
pub open spec fn spec_count_seeded(pre: MemoryStore, today: Date, i: int) -> int
    decreases i,
{
    if i <= 0 {
        0
    } else {
        spec_count_seeded(pre, today, i - 1) + if !pre.att_map().contains_key(
            ((pre.members@[i - 1].id as int, today)),
        ) {
            1int
        } else {
            0int
        }
    }
}

/// Rating-update count of a run prefix.
pub open spec fn spec_count_ratings(
    pre: MemoryStore,
    lookups: Seq<LookupOutcome>,
    i: int,
) -> int
    decreases i,
{
    if i <= 0 {
        0
    } else {
        spec_count_ratings(pre, lookups, i - 1) + if spec_rating_to_apply(
            pre.members@[i - 1],
            lookups[i - 1],
        ) is Some {
            1int
        } else {
            0int
        }
    }
}

/// Month-start resets of a run prefix: zero rows created.
pub open spec fn spec_count_resets(pre: MemoryStore, ctx: DayContext, i: int) -> int
    decreases i,
{
    if i <= 0 {
        0
    } else {
        spec_count_resets(pre, ctx, i - 1) + if ctx.today.day == 1 && pre.spec_streak_value(
            pre.members@[i - 1].id as int,
            ctx.month_first,
        ) is None {
            1int
        } else {
            0int
        }
    }
}

/// Streak increments of a run prefix.
pub open spec fn spec_count_increments(pre: MemoryStore, ctx: DayContext, i: int) -> int
    decreases i,
{
    if i <= 0 {
        0
    } else {
        spec_count_increments(pre, ctx, i - 1) + if ctx.today.day != 1 && pre.spec_present_count(
            pre.members@[i - 1].id as int,
            ctx.yesterday,
        ) == 1 && (match pre.spec_streak_value(pre.members@[i - 1].id as int, ctx.month_first) {
            Some(n) => n < i32::MAX,
            None => false,
        }) {
            1int
        } else {
            0int
        }
    }
}

/// Anomalies of a run prefix: presence without a month row, or a counter
/// already at the machine maximum.
pub open spec fn spec_count_anomalies(pre: MemoryStore, ctx: DayContext, i: int) -> int
    decreases i,
{
    if i <= 0 {
        0
    } else {
        spec_count_anomalies(pre, ctx, i - 1) + if ctx.today.day != 1 && pre.spec_present_count(
            pre.members@[i - 1].id as int,
            ctx.yesterday,
        ) == 1 && (match pre.spec_streak_value(pre.members@[i - 1].id as int, ctx.month_first) {
            Some(n) => n >= i32::MAX,
            None => true,
        }) {
            1int
        } else {
            0int
        }
    }
}

/// The run's verdict for one member is exactly one transition of the
/// streak state machine, fed with the member's stored counter and the
/// previous day's presence count; only a counter at the machine maximum
/// falls outside the machine's domain.
pub proof fn lemma_run_matches_machine(pre: MemoryStore, id: int, ctx: DayContext)
    requires
        match pre.spec_streak_value(id, ctx.month_first) {
            Some(n) => n < i32::MAX,
            None => true,
        },
    ensures
        spec_streak_post(pre, id, ctx) == crate::streak::spec_streak_step(
            ctx.today.day == 1,
            pre.spec_present_count(id, ctx.yesterday),
            pre.spec_streak_value(id, ctx.month_first),
        ).state,
{
}

/// Streak reset law at run level: after a run on the first day of a
/// month, a roster member's counter for that month is zero when no row
/// existed and exactly the old value when one did — never incremented on
/// the same run as the reset, whatever yesterday's presence was.
pub proof fn lemma_run_streak_reset(
    pre: MemoryStore,
    post: MemoryStore,
    lookups: Seq<LookupOutcome>,
    ctx: DayContext,
    i: int,
)
    requires
        spec_run_post(pre, post, lookups, ctx),
        ctx.today.day == 1,
        0 <= i < pre.members@.len(),
    ensures
        post.spec_streak_value(pre.members@[i].id as int, ctx.month_first) == (
        match pre.spec_streak_value(pre.members@[i].id as int, ctx.month_first) {
            None => Some(0i32),
            Some(n) => Some(n),
        }),
{
}

/// Streak increment law at run level: away from a month start, a stored
/// counter advances by exactly one when yesterday holds exactly one
/// present record, and stays exactly as it was when yesterday holds none
/// — absence never resets it.
pub proof fn lemma_run_streak_increment(
    pre: MemoryStore,
    post: MemoryStore,
    lookups: Seq<LookupOutcome>,
    ctx: DayContext,
    i: int,
    n: i32,
)
    requires
        spec_run_post(pre, post, lookups, ctx),
        ctx.today.day != 1,
        0 <= i < pre.members@.len(),
        pre.spec_streak_value(pre.members@[i].id as int, ctx.month_first) == Some(n),
        n < i32::MAX,
    ensures
        pre.spec_present_count(pre.members@[i].id as int, ctx.yesterday) == 1
            ==> post.spec_streak_value(pre.members@[i].id as int, ctx.month_first) == Some(
            (n + 1) as i32,
        ),
        pre.spec_present_count(pre.members@[i].id as int, ctx.yesterday) == 0
            ==> post.spec_streak_value(pre.members@[i].id as int, ctx.month_first) == Some(n),
{
}

/// Per-member fault isolation: run the same day twice from the same store,
/// with lookup outcomes that differ only for member `a` — a failure
/// instead of a rating, say — and member `b`'s post-run member record,
/// streak counter and attendance row are the same in both runs; `b`'s
/// today-row exists in both.
pub proof fn lemma_member_isolation(
    pre: MemoryStore,
    post1: MemoryStore,
    post2: MemoryStore,
    l1: Seq<LookupOutcome>,
    l2: Seq<LookupOutcome>,
    ctx: DayContext,
    a: int,
    b: int,
)
    requires
        pre.wf(),
        l1.len() == pre.members@.len(),
        l2.len() == pre.members@.len(),
        spec_run_post(pre, post1, l1, ctx),
        spec_run_post(pre, post2, l2, ctx),
        0 <= a < pre.members@.len(),
        0 <= b < pre.members@.len(),
        b != a,
        forall|j: int| 0 <= j < l1.len() && j != a ==> l1[j] == l2[j],
    ensures
        crate::member::spec_member_obs_eq(post1.members@[b], post2.members@[b]),
        post1.spec_streak_value(pre.members@[b].id as int, ctx.month_first)
            == post2.spec_streak_value(pre.members@[b].id as int, ctx.month_first),
        post1.att_map().contains_key((pre.members@[b].id as int, ctx.today)),
        post2.att_map().contains_key((pre.members@[b].id as int, ctx.today)),
        post1.att_map()[(pre.members@[b].id as int, ctx.today)] == post2.att_map()[(
            pre.members@[b].id as int,
            ctx.today,
        )],
{
    let m0 = pre.members@[b];
    let k = (m0.id as int, ctx.today);
    assert(l1[b] == l2[b]);
    match spec_rating_to_apply(m0, l1[b]) {
        Some(v) => {
            assert(spec_rating_refreshed(m0, post1.members@[b], v));
            assert(spec_rating_refreshed(m0, post2.members@[b], v));
        },
        None => {
            assert(post1.members@[b] == m0);
            assert(post2.members@[b] == m0);
        },
    }
    assert(post1.att_map().contains_key(k));
    assert(post2.att_map().contains_key(k));
    if pre.att_map().contains_key(k) {
        assert(post1.att_map()[k] == pre.att_map()[k]);
        assert(post2.att_map()[k] == pre.att_map()[k]);
    } else {
        assert(post1.att_map()[k] == spec_seeded_row(k.0, ctx.today));
        assert(post2.att_map()[k] == spec_seeded_row(k.0, ctx.today));
    }
}

/// One nightly run over the whole roster: per member, seed today's
/// attendance row, apply the member's lookup outcome to the cached rating,
/// then advance the month's streak counter.  Every per-member effect is a
/// function of the pre-run store and that member's own lookup outcome
/// alone.
pub fn run_daily_job(store: &mut MemoryStore, ctx: DayContext, lookups: &Vec<LookupOutcome>) -> (report:
    RunReport)
    requires
        old(store).wf(),
        ctx.wf(),
        lookups@.len() == old(store).members@.len(),
    ensures
        final(store).wf(),
        spec_run_post(*old(store), *final(store), lookups@, ctx),
        report.members_processed == old(store).members@.len(),
        report.seeded == spec_count_seeded(*old(store), ctx.today, old(store).members@.len() as int),
        report.ratings_updated == spec_count_ratings(
            *old(store),
            lookups@,
            old(store).members@.len() as int,
        ),
        report.streaks_reset == spec_count_resets(
            *old(store),
            ctx,
            old(store).members@.len() as int,
        ),
        report.streaks_incremented == spec_count_increments(
            *old(store),
            ctx,
            old(store).members@.len() as int,
        ),
        report.anomalies == spec_count_anomalies(*old(store), ctx, old(store).members@.len() as int),
{
    let ghost pre = *store;
    let n = store.members.len();
    let mut i: usize = 0;
    let mut seeded: usize = 0;
    let mut ratings_updated: usize = 0;
    let mut streaks_reset: usize = 0;
    let mut streaks_incremented: usize = 0;
    let mut anomalies: usize = 0;
    while i < n
        invariant
            pre == *old(store),
            pre.wf(),
            store.wf(),
            ctx.wf(),
            n == pre.members@.len(),
            lookups@.len() == n,
            i <= n,
            store.members@.len() == n,
            seeded <= i,
            ratings_updated <= i,
            streaks_reset <= i,
            streaks_incremented <= i,
            anomalies <= i,
            seeded == spec_count_seeded(pre, ctx.today, i as int),
            ratings_updated == spec_count_ratings(pre, lookups@, i as int),
            streaks_reset == spec_count_resets(pre, ctx, i as int),
            streaks_incremented == spec_count_increments(pre, ctx, i as int),
            anomalies == spec_count_anomalies(pre, ctx, i as int),
            // unprocessed members are untouched
            forall|j: int| i <= j < n ==> #[trigger] store.members@[j] == pre.members@[j],
            // processed members carry exactly their applied rating
            forall|j: int|
                0 <= j < i ==> (match spec_rating_to_apply(
                    #[trigger] pre.members@[j],
                    lookups@[j],
                ) {
                    Some(v) => spec_rating_refreshed(pre.members@[j], store.members@[j], v),
                    None => store.members@[j] == pre.members@[j],
                }),
            // attendance: nothing lost or rewritten,
            forall|k: (int, Date)| #[trigger]
                pre.att_map().contains_key(k) ==> store.att_map().contains_key(k)
                    && store.att_map()[k] == pre.att_map()[k],
            // new rows are today's seeds of processed members,
            forall|k: (int, Date)| #[trigger]
                store.att_map().contains_key(k) ==> pre.att_map().contains_key(k) || (k.1
                    == ctx.today && spec_id_among(pre.members@, i as int, k.0)
                    && store.att_map()[k] == spec_seeded_row(k.0, ctx.today)),
            // every processed member has a today-row,
            forall|j: int|
                0 <= j < i ==> store.att_map().contains_key(
                    ((#[trigger] pre.members@[j]).id as int, ctx.today),
                ),
            // streak rows away from processed members' months are untouched,
            forall|k: (int, Date)|
                !(k.1 == ctx.month_first && spec_id_among(pre.members@, i as int, k.0)) ==> ((
                #[trigger] pre.streak_rows().contains_key(k)) == store.streak_rows().contains_key(
                    k,
                ) && (pre.streak_rows().contains_key(k) ==> store.streak_rows()[k]
                    == pre.streak_rows()[k])),
            // processed members' month counters hold the machine's verdict
            forall|j: int|
                0 <= j < i ==> store.spec_streak_value(
                    (#[trigger] pre.members@[j]).id as int,
                    ctx.month_first,
                ) == spec_streak_post(pre, pre.members@[j].id as int, ctx),
        decreases n - i,
    {
        let ghost head = *store;
        let id = store.members[i].id;
        let to_apply = rating_to_apply(&store.members[i], lookups[i]);
        proof {
            assert(store.members@[i as int] == pre.members@[i as int]);
            // ids are unique in the pre-roster, so this member's keys are
            // fresh among the processed ones
            assert(!spec_id_among(pre.members@, i as int, id as int)) by {
                if spec_id_among(pre.members@, i as int, id as int) {
                    let j = choose|j: int|
                        0 <= j < i && (#[trigger] pre.members@[j]).id as int == id as int;
                    assert(pre.members@[j].key() == pre.members@[i as int].key());
                }
            }
        }
        // 1. seed today's attendance row, idempotently
        let created = store.insert_attendance_if_absent(id, ctx.today);
        if created {
            seeded = seeded + 1;
        }
        proof {
            assert(created == !pre.att_map().contains_key((id as int, ctx.today)));
        }
        // 2. apply this member's lookup outcome to the cached rating
        match to_apply {
            Some(v) => {
                proof {
                    lemma_assoc_map_at(store.members@, i as int);
                }
                let ghost ms0 = store.members@;
                let updated = store.update_member_rating(id, v);
                proof {
                    assert(updated);
                    assert(store.members@[i as int].id == id);
                    lemma_assoc_map_at(store.members@, i as int);
                    assert(spec_rating_refreshed(
                        pre.members@[i as int],
                        store.members@[i as int],
                        v as int,
                    ));
                    assert forall|j: int|
                        0 <= j < n && j != i as int implies #[trigger] store.members@[j]
                        == ms0[j] by {
                        assert(ms0[j].key() != ms0[i as int].key());
                    }
                }
                ratings_updated = ratings_updated + 1;
            },
            None => {},
        }
        // 3. advance the streak state machine
        if ctx.today.is_month_start() {
            let created_streak = store.insert_streak_if_absent(id, ctx.month_first, 0);
            if created_streak {
                streaks_reset = streaks_reset + 1;
            }
        } else {
            let cnt = store.count_present(id, ctx.yesterday);
            proof {
                assert(store.spec_present_count(id as int, ctx.yesterday)
                    == pre.spec_present_count(id as int, ctx.yesterday));
            }
            let existing = store.get_streak(id, ctx.month_first);
            let guard_ok = match existing {
                Some(streak) => streak < i32::MAX,
                None => true,
            };
            if guard_ok {
                let outcome = streak_step(false, cnt, existing);
                match (outcome.event, outcome.state) {
                    (StreakEvent::Incremented, Some(v)) => {
                        let updated = store.set_streak(id, ctx.month_first, v);
                        assert(updated);
                        streaks_incremented = streaks_incremented + 1;
                    },
                    (StreakEvent::Anomaly, _) => {
                        // presence without a month row, or an impossible
                        // presence count; reported, not fatal
                        anomalies = anomalies + 1;
                    },
                    _ => {
                        // absence never resets the counter mid-month
                    },
                }
            } else {
                // a counter at the machine maximum cannot advance
                if cnt == 1 {
                    anomalies = anomalies + 1;
                }
            }
        }
        proof {
            lemma_id_among_step(pre.members@, i as int, id as int);
            assert forall|k: (int, Date)|
                !(k.1 == ctx.month_first && spec_id_among(pre.members@, i as int + 1, k.0)) implies ((
            #[trigger] pre.streak_rows().contains_key(k)) == store.streak_rows().contains_key(k) && (
            pre.streak_rows().contains_key(k) ==> store.streak_rows()[k]
                == pre.streak_rows()[k])) by {
                lemma_id_among_step(pre.members@, i as int, k.0);
                assert(k != (id as int, ctx.month_first));
                assert(head.streak_rows().contains_key(k) == pre.streak_rows().contains_key(k) && (
                pre.streak_rows().contains_key(k) ==> head.streak_rows()[k]
                    == pre.streak_rows()[k]));
                assert(store.streak_rows().contains_key(k) == head.streak_rows().contains_key(k)
                    && (head.streak_rows().contains_key(k) ==> store.streak_rows()[k]
                    == head.streak_rows()[k]));
            }
            assert forall|k: (int, Date)| #[trigger]
                store.att_map().contains_key(k) implies pre.att_map().contains_key(k) || (k.1
                == ctx.today && spec_id_among(pre.members@, i as int + 1, k.0)
                && store.att_map()[k] == spec_seeded_row(k.0, ctx.today)) by {
                lemma_id_among_step(pre.members@, i as int, k.0);
            }
        }
        i = i + 1;
    }
    proof {
        lemma_id_among_all(pre.members@);
        assert forall|i2: int| 0 <= i2 < pre.members@.len() implies store.att_map().contains_key(
            ((#[trigger] pre.members@[i2]).id as int, ctx.today),
        ) by {}
        assert forall|k: (int, Date)|
            !(k.1 == ctx.month_first && pre.member_map().contains_key(k.0)) implies (#[trigger]
        store.streak_rows().contains_key(k) == pre.streak_rows().contains_key(k) && (
        pre.streak_rows().contains_key(k) ==> store.streak_rows()[k]
            == pre.streak_rows()[k])) by {
            assert(!(k.1 == ctx.month_first && spec_id_among(pre.members@, n as int, k.0)));
            assert((pre.streak_rows().contains_key(k)) == store.streak_rows().contains_key(k) && (
            pre.streak_rows().contains_key(k) ==> store.streak_rows()[k]
                == pre.streak_rows()[k]));
        }
    }
    RunReport {
        members_processed: n,
        seeded,
        ratings_updated,
        streaks_reset,
        streaks_incremented,
        anomalies,
    }
}

} // verus!
