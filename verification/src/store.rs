//! An in-memory model of the persistence store the nightly job writes to:
//! the roster, the attendance table and the monthly streak table, each a
//! vector of rows with unique keys, viewed as maps in contracts.

use crate::attendance::{
    Attendance, TimeOfDay, mark_row, midnight, spec_marked_row, spec_seeded_row,
};
use crate::date::Date;
use crate::kv::{
    Keyed, assoc_map, keys_unique, lemma_assoc_map_at, lemma_assoc_map_dom, lemma_assoc_map_push,
    lemma_assoc_map_update,
};
use crate::member::Member;
use crate::numfmt::{i64_dec_string, spec_i64_dec};
use vstd::pervasive::VecAdditionalExecFns;
use vstd::prelude::*;

verus! {

/// One monthly streak row, keyed by (member, month start).
#[derive(Clone, Copy, PartialEq, Eq, Structural, Debug)]
pub struct StreakRow {
    pub member_id: i32,
    pub month: Date,
    pub streak: i32,
}

impl Keyed for Attendance {
    type Key = (int, Date);

    open spec fn key(self) -> (int, Date) {
        (self.member_id as int, self.date)
    }
}

impl Keyed for StreakRow {
    type Key = (int, Date);

    open spec fn key(self) -> (int, Date) {
        (self.member_id as int, self.month)
    }
}

impl Keyed for Member {
    type Key = int;

    open spec fn key(self) -> int {
        self.id as int
    }
}

/// The new member equals the old one in every field but the cached rating,
/// which now holds the decimal rendering of `v`.
pub open spec fn spec_rating_refreshed(m0: Member, m1: Member, v: int) -> bool {
    &&& m1.id == m0.id
    &&& m1.rollno == m0.rollno
    &&& m1.name == m0.name
    &&& m1.hostel == m0.hostel
    &&& m1.email == m0.email
    &&& m1.sex == m0.sex
    &&& m1.year == m0.year
    &&& m1.macaddress == m0.macaddress
    &&& m1.leaderboard_id == m0.leaderboard_id
    &&& m1.cp_platform == m0.cp_platform
    &&& m1.rating@ == spec_i64_dec(v).map_values(|b: u8| b as char)
}

/// The seeder's effect on the attendance table: the default absent row is
/// added only when the key is free.
pub open spec fn spec_seeded_map(
    m: Map<(int, Date), Attendance>,
    id: int,
    date: Date,
) -> Map<(int, Date), Attendance> {
    if m.contains_key((id, date)) {
        m
    } else {
        m.insert((id, date), spec_seeded_row(id, date))
    }
}

/// Idempotent seeding: one seeding puts the key in the table, and seeding
/// the same (member, date) again changes nothing at all.
pub proof fn lemma_seeding_idempotent(m: Map<(int, Date), Attendance>, id: int, date: Date)
    ensures
        spec_seeded_map(m, id, date).contains_key((id, date)),
        spec_seeded_map(spec_seeded_map(m, id, date), id, date) == spec_seeded_map(m, id, date),
{
}

/// The new member equals the old one in every field but the linked handle
/// and platform selector; the cached stats wait for the next nightly
/// refresh.
pub open spec fn spec_handle_linked(m0: Member, m1: Member, handle: String, platform: String) -> bool {
    &&& m1.id == m0.id
    &&& m1.rollno == m0.rollno
    &&& m1.name == m0.name
    &&& m1.hostel == m0.hostel
    &&& m1.email == m0.email
    &&& m1.sex == m0.sex
    &&& m1.year == m0.year
    &&& m1.macaddress == m0.macaddress
    &&& m1.leaderboard_id == handle
    &&& m1.cp_platform == platform
    &&& m1.rating == m0.rating
}

/// The store: roster, attendance and streak tables.
pub struct MemoryStore {
    pub members: Vec<Member>,
    pub attendance: Vec<Attendance>,
    pub streaks: Vec<StreakRow>,
}

impl MemoryStore {
    /// The attendance table as a map keyed by (member, date).
    pub open spec fn att_map(self) -> Map<(int, Date), Attendance> {
        assoc_map(self.attendance@)
    }

    /// The streak table as a map keyed by (member, month start).
    pub open spec fn streak_rows(self) -> Map<(int, Date), StreakRow> {
        assoc_map(self.streaks@)
    }

    /// The roster as a map keyed by member id.
    pub open spec fn member_map(self) -> Map<int, Member> {
        assoc_map(self.members@)
    }

    /// The stored streak counter for a member's month, if any.
    pub open spec fn spec_streak_value(self, member: int, month: Date) -> Option<i32> {
        if self.streak_rows().contains_key((member, month)) {
            Some(self.streak_rows()[(member, month)].streak)
        } else {
            None
        }
    }

    /// How many present records a member has on a date: zero or one, by
    /// the key invariant.
    pub open spec fn spec_present_count(self, member: int, date: Date) -> int {
        if self.att_map().contains_key((member, date)) && self.att_map()[(member, date)].is_present {
            1
        } else {
            0
        }
    }

    /// Key uniqueness in all three tables, and non-negative counters.
    pub open spec fn wf(self) -> bool {
        &&& keys_unique(self.attendance@)
        &&& keys_unique(self.streaks@)
        &&& keys_unique(self.members@)
        &&& forall|i: int| 0 <= i < self.streaks@.len() ==> (#[trigger] self.streaks@[i]).streak >= 0
    }

    /// An empty store.
    pub fn new() -> (r: MemoryStore)
        ensures
            r.wf(),
            r.members@ == Seq::<Member>::empty(),
            r.attendance@ == Seq::<Attendance>::empty(),
            r.streaks@ == Seq::<StreakRow>::empty(),
    {
        MemoryStore { members: Vec::new(), attendance: Vec::new(), streaks: Vec::new() }
    }

    fn find_attendance(&self, member_id: i32, date: Date) -> (r: Option<usize>)
        ensures
            match r {
                Some(i) => i < self.attendance@.len() && self.attendance@[i as int].key() == (
                member_id as int,
                date,
                ),
                None => !self.att_map().contains_key((member_id as int, date)),
            },
    {
        let n = self.attendance.len();
        let mut i: usize = 0;
        while i < n
            invariant
                n == self.attendance@.len(),
                i <= n,
                forall|j: int|
                    0 <= j < i ==> (#[trigger] self.attendance@[j]).key() != (member_id as int, date),
            decreases n - i,
        {
            let row = &self.attendance[i];
            if row.member_id == member_id && row.date == date {
                return Some(i);
            }
            i = i + 1;
        }
        proof {
            lemma_assoc_map_dom::<Attendance>(self.attendance@);
        }
        None
    }

    fn find_streak(&self, member_id: i32, month: Date) -> (r: Option<usize>)
        ensures
            match r {
                Some(i) => i < self.streaks@.len() && self.streaks@[i as int].key() == (
                member_id as int,
                month,
                ),
                None => !self.streak_rows().contains_key((member_id as int, month)),
            },
    {
        let n = self.streaks.len();
        let mut i: usize = 0;
        while i < n
            invariant
                n == self.streaks@.len(),
                i <= n,
                forall|j: int|
                    0 <= j < i ==> (#[trigger] self.streaks@[j]).key() != (member_id as int, month),
            decreases n - i,
        {
            let row = &self.streaks[i];
            if row.member_id == member_id && row.month == month {
                return Some(i);
            }
            i = i + 1;
        }
        proof {
            lemma_assoc_map_dom::<StreakRow>(self.streaks@);
        }
        None
    }

    fn find_member(&self, member_id: i32) -> (r: Option<usize>)
        ensures
            match r {
                Some(i) => i < self.members@.len() && self.members@[i as int].key()
                    == member_id as int,
                None => !self.member_map().contains_key(member_id as int),
            },
    {
        let n = self.members.len();
        let mut i: usize = 0;
        while i < n
            invariant
                n == self.members@.len(),
                i <= n,
                forall|j: int| 0 <= j < i ==> (#[trigger] self.members@[j]).key() != member_id as int,
            decreases n - i,
        {
            if self.members[i].id == member_id {
                return Some(i);
            }
            i = i + 1;
        }
        proof {
            lemma_assoc_map_dom::<Member>(self.members@);
        }
        None
    }

    /// The attendance row of (member, date), if one exists.
    pub fn get_attendance(&self, member_id: i32, date: Date) -> (r: Option<Attendance>)
        requires
            self.wf(),
        ensures
            r == if self.att_map().contains_key((member_id as int, date)) {
                Some(self.att_map()[(member_id as int, date)])
            } else {
                None::<Attendance>
            },
    {
        match self.find_attendance(member_id, date) {
            Some(i) => {
                proof {
                    lemma_assoc_map_at(self.attendance@, i as int);
                }
                Some(self.attendance[i])
            },
            None => None,
        }
    }

    /// Enrolls a member; refused when the id is taken.
    pub fn add_member(&mut self, m: Member) -> (added: bool)
        requires
            old(self).wf(),
        ensures
            final(self).wf(),
            added == !old(self).member_map().contains_key(m.id as int),
            added ==> final(self).members@ == old(self).members@.push(m) && final(self).member_map()
                == old(self).member_map().insert(m.id as int, m),
            !added ==> *final(self) == *old(self),
            final(self).attendance@ == old(self).attendance@,
            final(self).streaks@ == old(self).streaks@,
    {
        match self.find_member(m.id) {
            Some(i) => {
                proof {
                    lemma_assoc_map_at(self.members@, i as int);
                }
                false
            },
            None => {
                proof {
                    lemma_assoc_map_push(self.members@, m);
                    lemma_assoc_map_dom::<Member>(self.members@);
                    assert forall|a: int, b: int|
                        0 <= a < b < self.members@.push(m).len() implies (
                    #[trigger] self.members@.push(m)[a]).key() != (
                    #[trigger] self.members@.push(m)[b]).key() by {
                        if b < self.members@.len() {
                            assert(self.members@.push(m)[a] == self.members@[a]);
                            assert(self.members@.push(m)[b] == self.members@[b]);
                        } else {
                            assert(self.members@.push(m)[a] == self.members@[a]);
                            assert(self.members@.push(m)[b] == m);
                        }
                    }
                }
                self.members.push(m);
                true
            },
        }
    }

    /// The seeder's idempotent insert: creates the default absent row for
    /// (member, date) only if none exists; an existing row, whatever it
    /// holds, is left untouched and the conflict is swallowed.
    pub fn insert_attendance_if_absent(&mut self, member_id: i32, date: Date) -> (created: bool)
        requires
            old(self).wf(),
        ensures
            final(self).wf(),
            created == !old(self).att_map().contains_key((member_id as int, date)),
            created ==> final(self).attendance@ == old(self).attendance@.push(
                spec_seeded_row(member_id as int, date),
            ) && final(self).att_map() == old(self).att_map().insert(
                (member_id as int, date),
                spec_seeded_row(member_id as int, date),
            ),
            !created ==> *final(self) == *old(self),
            final(self).att_map() == spec_seeded_map(old(self).att_map(), member_id as int, date),
            final(self).streaks@ == old(self).streaks@,
            final(self).members@ == old(self).members@,
    {
        match self.find_attendance(member_id, date) {
            Some(i) => {
                proof {
                    lemma_assoc_map_at(self.attendance@, i as int);
                }
                false
            },
            None => {
                let t = midnight();
                let row = Attendance {
                    member_id,
                    date,
                    is_present: false,
                    time_in: Some(t),
                    time_out: Some(t),
                };
                proof {
                    lemma_assoc_map_push(self.attendance@, row);
                    lemma_assoc_map_dom::<Attendance>(self.attendance@);
                    assert forall|a: int, b: int|
                        0 <= a < b < self.attendance@.push(row).len() implies (
                    #[trigger] self.attendance@.push(row)[a]).key() != (
                    #[trigger] self.attendance@.push(row)[b]).key() by {
                        if b < self.attendance@.len() {
                            assert(self.attendance@.push(row)[a] == self.attendance@[a]);
                            assert(self.attendance@.push(row)[b] == self.attendance@[b]);
                        } else {
                            assert(self.attendance@.push(row)[a] == self.attendance@[a]);
                            assert(self.attendance@.push(row)[b] == row);
                        }
                    }
                }
                self.attendance.push(row);
                true
            },
        }
    }

    /// The plain attendance-insert mutation: adds a row with the given
    /// fields; a second row for the same (member, date) violates the
    /// composite key and is refused unchanged.
    pub fn add_attendance(
        &mut self,
        member_id: i32,
        date: Date,
        time_in: TimeOfDay,
        time_out: TimeOfDay,
        is_present: bool,
    ) -> (r: Option<Attendance>)
        requires
            old(self).wf(),
        ensures
            final(self).wf(),
            match r {
                Some(rec) => !old(self).att_map().contains_key((member_id as int, date)) && rec == (
                Attendance {
                    member_id,
                    date,
                    is_present,
                    time_in: Some(time_in),
                    time_out: Some(time_out),
                }) && final(self).attendance@ == old(self).attendance@.push(rec)
                    && final(self).att_map() == old(self).att_map().insert(
                    (member_id as int, date),
                    rec,
                ),
                None => old(self).att_map().contains_key((member_id as int, date)) && *final(self)
                    == *old(self),
            },
            final(self).streaks@ == old(self).streaks@,
            final(self).members@ == old(self).members@,
    {
        match self.find_attendance(member_id, date) {
            Some(i) => {
                proof {
                    lemma_assoc_map_at(self.attendance@, i as int);
                }
                None
            },
            None => {
                let row = Attendance {
                    member_id,
                    date,
                    is_present,
                    time_in: Some(time_in),
                    time_out: Some(time_out),
                };
                proof {
                    lemma_assoc_map_push(self.attendance@, row);
                    lemma_assoc_map_dom::<Attendance>(self.attendance@);
                    assert forall|a: int, b: int|
                        0 <= a < b < self.attendance@.push(row).len() implies (
                    #[trigger] self.attendance@.push(row)[a]).key() != (
                    #[trigger] self.attendance@.push(row)[b]).key() by {
                        if b < self.attendance@.len() {
                            assert(self.attendance@.push(row)[a] == self.attendance@[a]);
                            assert(self.attendance@.push(row)[b] == self.attendance@[b]);
                        } else {
                            assert(self.attendance@.push(row)[a] == self.attendance@[a]);
                            assert(self.attendance@.push(row)[b] == row);
                        }
                    }
                }
                self.attendance.push(row);
                Some(row)
            },
        }
    }

    /// The presence-marking mutation's effect: rewrites the row of
    /// (member, date) as [`spec_marked_row`] says and returns it; without a
    /// row nothing changes and `None` reports the missing key.
    pub fn mark_attendance(
        &mut self,
        member_id: i32,
        date: Date,
        now: TimeOfDay,
        is_present: bool,
    ) -> (r: Option<Attendance>)
        requires
            old(self).wf(),
        ensures
            final(self).wf(),
            match r {
                Some(rec) => old(self).att_map().contains_key((member_id as int, date)) && rec
                    == spec_marked_row(
                    old(self).att_map()[(member_id as int, date)],
                    now,
                    is_present,
                ) && final(self).att_map() == old(self).att_map().insert(
                    (member_id as int, date),
                    rec,
                ) && final(self).attendance@.len() == old(self).attendance@.len(),
                None => !old(self).att_map().contains_key((member_id as int, date)) && *final(self)
                    == *old(self),
            },
            final(self).streaks@ == old(self).streaks@,
            final(self).members@ == old(self).members@,
    {
        match self.find_attendance(member_id, date) {
            Some(i) => {
                proof {
                    lemma_assoc_map_at(self.attendance@, i as int);
                }
                let updated = mark_row(self.attendance[i], now, is_present);
                proof {
                    lemma_assoc_map_update(self.attendance@, i as int, updated);
                    assert forall|a: int, b: int|
                        0 <= a < b < self.attendance@.update(i as int, updated).len() implies (
                    #[trigger] self.attendance@.update(i as int, updated)[a]).key() != (
                    #[trigger] self.attendance@.update(i as int, updated)[b]).key() by {
                        assert(self.attendance@.update(i as int, updated)[a].key()
                            == self.attendance@[a].key());
                        assert(self.attendance@.update(i as int, updated)[b].key()
                            == self.attendance@[b].key());
                    }
                }
                self.attendance.set(i, updated);
                Some(updated)
            },
            None => None,
        }
    }

    /// COUNT of present records for (member, date): zero or one under the
    /// key invariant.
    pub fn count_present(&self, member_id: i32, date: Date) -> (r: i64)
        requires
            self.wf(),
        ensures
            r == self.spec_present_count(member_id as int, date),
    {
        match self.find_attendance(member_id, date) {
            Some(i) => {
                proof {
                    lemma_assoc_map_at(self.attendance@, i as int);
                }
                if self.attendance[i].is_present {
                    1
                } else {
                    0
                }
            },
            None => 0,
        }
    }

    /// The streak counter stored for (member, month), if any.
    pub fn get_streak(&self, member_id: i32, month: Date) -> (r: Option<i32>)
        requires
            self.wf(),
        ensures
            r == self.spec_streak_value(member_id as int, month),
            match r {
                Some(n) => n >= 0,
                None => true,
            },
    {
        match self.find_streak(member_id, month) {
            Some(i) => {
                proof {
                    lemma_assoc_map_at(self.streaks@, i as int);
                }
                Some(self.streaks[i].streak)
            },
            None => None,
        }
    }

    /// The month-start conditional insert: creates the row only if absent,
    /// never clobbering a concurrently created one.
    pub fn insert_streak_if_absent(&mut self, member_id: i32, month: Date, value: i32) -> (created:
        bool)
        requires
            old(self).wf(),
            value >= 0,
        ensures
            final(self).wf(),
            created == !old(self).streak_rows().contains_key((member_id as int, month)),
            created ==> final(self).streaks@ == old(self).streaks@.push(
                StreakRow { member_id, month, streak: value },
            ) && final(self).streak_rows() == old(self).streak_rows().insert(
                (member_id as int, month),
                StreakRow { member_id, month, streak: value },
            ),
            !created ==> *final(self) == *old(self),
            final(self).attendance@ == old(self).attendance@,
            final(self).members@ == old(self).members@,
    {
        match self.find_streak(member_id, month) {
            Some(i) => {
                proof {
                    lemma_assoc_map_at(self.streaks@, i as int);
                }
                false
            },
            None => {
                let row = StreakRow { member_id, month, streak: value };
                proof {
                    lemma_assoc_map_push(self.streaks@, row);
                    lemma_assoc_map_dom::<StreakRow>(self.streaks@);
                    assert forall|a: int, b: int|
                        0 <= a < b < self.streaks@.push(row).len() implies (
                    #[trigger] self.streaks@.push(row)[a]).key() != (
                    #[trigger] self.streaks@.push(row)[b]).key() by {
                        if b < self.streaks@.len() {
                            assert(self.streaks@.push(row)[a] == self.streaks@[a]);
                            assert(self.streaks@.push(row)[b] == self.streaks@[b]);
                        } else {
                            assert(self.streaks@.push(row)[a] == self.streaks@[a]);
                            assert(self.streaks@.push(row)[b] == row);
                        }
                    }
                }
                self.streaks.push(row);
                true
            },
        }
    }

    /// Overwrites the streak counter of an existing (member, month) row;
    /// reports whether one was there.
    pub fn set_streak(&mut self, member_id: i32, month: Date, value: i32) -> (updated: bool)
        requires
            old(self).wf(),
            value >= 0,
        ensures
            final(self).wf(),
            updated == old(self).streak_rows().contains_key((member_id as int, month)),
            updated ==> final(self).streak_rows() == old(self).streak_rows().insert(
                (member_id as int, month),
                StreakRow { member_id, month, streak: value },
            ) && final(self).streaks@.len() == old(self).streaks@.len(),
            !updated ==> *final(self) == *old(self),
            final(self).attendance@ == old(self).attendance@,
            final(self).members@ == old(self).members@,
    {
        match self.find_streak(member_id, month) {
            Some(i) => {
                proof {
                    lemma_assoc_map_at(self.streaks@, i as int);
                }
                let row = StreakRow { member_id, month, streak: value };
                proof {
                    lemma_assoc_map_update(self.streaks@, i as int, row);
                    assert forall|a: int, b: int|
                        0 <= a < b < self.streaks@.update(i as int, row).len() implies (
                    #[trigger] self.streaks@.update(i as int, row)[a]).key() != (
                    #[trigger] self.streaks@.update(i as int, row)[b]).key() by {
                        assert(self.streaks@.update(i as int, row)[a].key()
                            == self.streaks@[a].key());
                        assert(self.streaks@.update(i as int, row)[b].key()
                            == self.streaks@[b].key());
                    }
                }
                self.streaks.set(i, row);
                true
            },
            None => false,
        }
    }

    /// The handle-linking mutations' effect: rewrites a member's handle
    /// and platform selector in place, leaving the cached stats to the
    /// next nightly refresh; reports whether the member exists.
    pub fn link_handle(&mut self, member_id: i32, handle: String, platform: String) -> (updated:
        bool)
        requires
            old(self).wf(),
        ensures
            final(self).wf(),
            updated == old(self).member_map().contains_key(member_id as int),
            updated ==> final(self).member_map().dom() == old(self).member_map().dom() && (
            forall|k: int|
                k != member_id as int && old(self).member_map().contains_key(k)
                    ==> final(self).member_map()[k] == old(self).member_map()[k])
                && spec_handle_linked(
                old(self).member_map()[member_id as int],
                final(self).member_map()[member_id as int],
                handle,
                platform,
            ) && final(self).members@.len() == old(self).members@.len(),
            !updated ==> *final(self) == *old(self),
            final(self).attendance@ == old(self).attendance@,
            final(self).streaks@ == old(self).streaks@,
    {
        match self.find_member(member_id) {
            Some(i) => {
                proof {
                    lemma_assoc_map_at(self.members@, i as int);
                }
                let ghost before = self.members@;
                self.members[i].leaderboard_id = handle;
                self.members[i].cp_platform = platform;
                proof {
                    let m1 = self.members@[i as int];
                    assert(self.members@ =~= before.update(i as int, m1));
                    lemma_assoc_map_update(before, i as int, m1);
                    assert forall|a: int, b: int|
                        0 <= a < b < self.members@.len() implies (
                    #[trigger] self.members@[a]).key() != (#[trigger] self.members@[b]).key() by {
                        assert(self.members@[a].key() == before[a].key());
                        assert(self.members@[b].key() == before[b].key());
                    }
                    assert(self.member_map().dom() =~= old(self).member_map().dom());
                }
                true
            },
            None => false,
        }
    }

    /// A seeded key is carried by exactly one attendance row.
    pub proof fn lemma_seeded_key_exactly_one_row(self, id: int, date: Date)
        requires
            self.wf(),
            self.att_map().contains_key((id, date)),
        ensures
            crate::kv::row_count(self.attendance@, (id, date)) == 1,
    {
        crate::kv::lemma_unique_key_count(self.attendance@, (id, date));
    }

    /// Writes the fetched rating into the member's cached rating field;
    /// reports whether the member exists.
    pub fn update_member_rating(&mut self, member_id: i32, rating: i64) -> (updated: bool)
        requires
            old(self).wf(),
        ensures
            final(self).wf(),
            updated == old(self).member_map().contains_key(member_id as int),
            updated ==> final(self).member_map().dom() == old(self).member_map().dom() && (
            forall|k: int|
                k != member_id as int && old(self).member_map().contains_key(k)
                    ==> final(self).member_map()[k] == old(self).member_map()[k])
                && spec_rating_refreshed(
                old(self).member_map()[member_id as int],
                final(self).member_map()[member_id as int],
                rating as int,
            ) && final(self).members@.len() == old(self).members@.len(),
            updated ==> forall|j: int|
                0 <= j < old(self).members@.len() ==> (#[trigger] final(self).members@[j] == old(
                    self,
                ).members@[j] || (old(self).members@[j].id == member_id && spec_rating_refreshed(
                    old(self).members@[j],
                    final(self).members@[j],
                    rating as int,
                ))),
            !updated ==> *final(self) == *old(self),
            final(self).attendance@ == old(self).attendance@,
            final(self).streaks@ == old(self).streaks@,
    {
        match self.find_member(member_id) {
            Some(i) => {
                proof {
                    lemma_assoc_map_at(self.members@, i as int);
                }
                let s = i64_dec_string(rating);
                let ghost before = self.members@;
                self.members[i].rating = s;
                proof {
                    let m1 = self.members@[i as int];
                    lemma_assoc_map_update(before, i as int, m1);
                    assert forall|a: int, b: int|
                        0 <= a < b < self.members@.len() implies (
                    #[trigger] self.members@[a]).key() != (#[trigger] self.members@[b]).key() by {
                        assert(self.members@[a].key() == before[a].key());
                        assert(self.members@[b].key() == before[b].key());
                    }
                    assert(self.member_map().dom() =~= old(self).member_map().dom());
                }
                true
            },
            None => false,
        }
    }
}

} // verus!
