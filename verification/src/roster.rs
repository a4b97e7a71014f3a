//! The enrollment-side member record, as the mutation API works with it.

use vstd::prelude::*;

verus! {

/// A member as the enrollment mutations store it.
#[derive(Clone, Debug)]
pub struct Member {
    pub id: i32,
    pub rollno: String,
    pub name: String,
    pub hostel: String,
    pub email: String,
    pub sex: String,
    pub year: i32,
    pub macaddress: String,
    pub discord_id: Option<String>,
    pub group_id: Option<i32>,
}

/// The edit mutation's merge rule: an empty or zero input keeps the stored
/// value, anything else replaces it; identity fields never change.
pub open spec fn spec_edited_member(
    m: Member,
    hostel: String,
    year: i32,
    macaddress: String,
    discord_id: String,
    group_id: i32,
) -> Member {
    Member {
        id: m.id,
        rollno: m.rollno,
        name: m.name,
        email: m.email,
        sex: m.sex,
        hostel: if hostel@.len() == 0 {
            m.hostel
        } else {
            hostel
        },
        year: if year == 0 {
            m.year
        } else {
            year
        },
        macaddress: if macaddress@.len() == 0 {
            m.macaddress
        } else {
            macaddress
        },
        discord_id: if discord_id@.len() == 0 {
            m.discord_id
        } else {
            Some(discord_id)
        },
        group_id: if group_id == 0 {
            m.group_id
        } else {
            Some(group_id)
        },
    }
}

/// Merges an edit request into a stored member.
pub fn edit_member_merge(
    m: Member,
    hostel: String,
    year: i32,
    macaddress: String,
    discord_id: String,
    group_id: i32,
) -> (r: Member)
    ensures
        r == spec_edited_member(m, hostel, year, macaddress, discord_id, group_id),
{
    let new_hostel = if hostel.as_str().is_empty() {
        m.hostel
    } else {
        hostel
    };
    let new_year = if year == 0 {
        m.year
    } else {
        year
    };
    let new_mac = if macaddress.as_str().is_empty() {
        m.macaddress
    } else {
        macaddress
    };
    let new_discord = if discord_id.as_str().is_empty() {
        m.discord_id
    } else {
        Some(discord_id)
    };
    let new_group = if group_id == 0 {
        m.group_id
    } else {
        Some(group_id)
    };
    Member {
        id: m.id,
        rollno: m.rollno,
        name: m.name,
        email: m.email,
        sex: m.sex,
        hostel: new_hostel,
        year: new_year,
        macaddress: new_mac,
        discord_id: new_discord,
        group_id: new_group,
    }
}

} // verus!
