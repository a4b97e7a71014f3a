//! Member records as the nightly job and the leaderboard refresher see
//! them.

use vstd::prelude::*;

verus! {

/// A member of the organisation, with the linked leaderboard handle and the
/// cached rating the refresher maintains.  The rating is the only field the
/// nightly job ever rewrites.
#[derive(Clone, Debug)]
pub struct Member {
    pub id: i32,
    pub rollno: String,
    pub name: String,
    pub hostel: String,
    pub email: String,
    pub sex: String,
    pub year: i32,
    pub macaddress: String,
    pub leaderboard_id: String,
    pub cp_platform: String,
    pub rating: String,
}

impl Member {
    /// Whether the member opted into a supported leaderboard platform: a
    /// non-empty handle on a platform the refresher has a client for.
    /// Anyone else is skipped silently.
    pub open spec fn spec_linked(self) -> bool {
        self.leaderboard_id@.len() > 0 && (self.cp_platform@ == "Codeforces"@ || self.cp_platform@
            == "LeetCode"@)
    }

    /// Evaluates [`Member::spec_linked`].
    pub fn linked(&self) -> (r: bool)
        ensures
            r == self.spec_linked(),
    {
        !self.leaderboard_id.as_str().is_empty() && (self.cp_platform == String::from_str(
            "Codeforces",
        ) || self.cp_platform == String::from_str("LeetCode"))
    }
}

/// Two member records that cannot be told apart: every plain field equal,
/// and the rating fields holding the same characters.
pub open spec fn spec_member_obs_eq(m1: Member, m2: Member) -> bool {
    &&& m1.id == m2.id
    &&& m1.rollno == m2.rollno
    &&& m1.name == m2.name
    &&& m1.hostel == m2.hostel
    &&& m1.email == m2.email
    &&& m1.sex == m2.sex
    &&& m1.year == m2.year
    &&& m1.macaddress == m2.macaddress
    &&& m1.leaderboard_id == m2.leaderboard_id
    &&& m1.cp_platform == m2.cp_platform
    &&& m1.rating@ == m2.rating@
}

/// A member with the aggregates some queries attach.
#[derive(Clone, Debug)]
pub struct MemberExtended {
    pub member: Member,
    pub project_title: Option<String>,
    pub attendance_count: Option<String>,
    pub update_count: Option<String>,
}

/// One row of the status-update streak table.
#[derive(Clone, Copy, Debug)]
pub struct StreakUpdate {
    pub id: i32,
    pub streak: Option<i32>,
    pub max_streak: Option<i32>,
}

} // verus!
