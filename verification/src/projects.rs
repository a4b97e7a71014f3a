//! Active project assignments: a table of rows with serial ids, grown by
//! the set mutation and shrunk by the remove mutation.

use crate::kv::{
    Keyed, assoc_map, keys_unique, lemma_assoc_map_at, lemma_assoc_map_dom, lemma_assoc_map_push,
    lemma_assoc_map_remove,
};
use vstd::prelude::*;

verus! {

/// A member's currently active project.
#[derive(Clone, Debug)]
pub struct ActiveProjects {
    pub id: i32,
    pub member_id: i32,
    pub project_title: Option<String>,
}

impl Keyed for ActiveProjects {
    type Key = int;

    open spec fn key(self) -> int {
        self.id as int
    }
}

/// The active-project table, handing out serial row ids.
pub struct ProjectsTable {
    pub rows: Vec<ActiveProjects>,
    pub next_id: i32,
}

impl ProjectsTable {
    /// The table as a map keyed by row id.
    pub open spec fn project_map(self) -> Map<int, ActiveProjects> {
        assoc_map(self.rows@)
    }

    /// Unique ids, every one below the next to be handed out.
    pub open spec fn wf(self) -> bool {
        &&& keys_unique(self.rows@)
        &&& forall|i: int| 0 <= i < self.rows@.len() ==> (#[trigger] self.rows@[i]).id < self.next_id
    }

    /// An empty table; row ids start at one.
    pub fn new() -> (r: ProjectsTable)
        ensures
            r.wf(),
            r.rows@ == Seq::<ActiveProjects>::empty(),
            r.next_id == 1,
    {
        ProjectsTable { rows: Vec::new(), next_id: 1 }
    }

    /// The set mutation: appends a row for the member under a fresh serial
    /// id and returns it.
    pub fn set_active_project(&mut self, member_id: i32, project_title: String) -> (r:
        ActiveProjects)
        requires
            old(self).wf(),
            old(self).next_id < i32::MAX,
        ensures
            final(self).wf(),
            r.id == old(self).next_id && r.member_id == member_id && r.project_title == Some(
                project_title,
            ),
            final(self).rows@ == old(self).rows@.push(r),
            final(self).project_map() == old(self).project_map().insert(r.id as int, r),
            final(self).next_id == old(self).next_id + 1,
    {
        let row = ActiveProjects {
            id: self.next_id,
            member_id,
            project_title: Some(project_title.clone()),
        };
        let ret = ActiveProjects { id: self.next_id, member_id, project_title: Some(project_title) };
        proof {
            assert(row == ret);
            lemma_assoc_map_push(self.rows@, row);
            assert forall|a: int, b: int|
                0 <= a < b < self.rows@.push(row).len() implies (
            #[trigger] self.rows@.push(row)[a]).key() != (#[trigger] self.rows@.push(row)[b]).key() by {
                if b < self.rows@.len() {
                    assert(self.rows@.push(row)[a] == self.rows@[a]);
                    assert(self.rows@.push(row)[b] == self.rows@[b]);
                } else {
                    assert(self.rows@.push(row)[a] == self.rows@[a]);
                    assert(self.rows@.push(row)[b] == row);
                }
            }
        }
        self.rows.push(row);
        self.next_id = self.next_id + 1;
        ret
    }

    /// The remove mutation: deletes the row with this id and returns it; a
    /// missing id changes nothing and is reported.
    pub fn remove_active_project(&mut self, project_id: i32) -> (r: Option<ActiveProjects>)
        requires
            old(self).wf(),
        ensures
            final(self).wf(),
            match r {
                Some(p) => old(self).project_map().contains_key(project_id as int) && p == old(
                    self,
                ).project_map()[project_id as int] && final(self).project_map() == old(
                    self,
                ).project_map().remove(project_id as int),
                None => !old(self).project_map().contains_key(project_id as int) && *final(self)
                    == *old(self),
            },
            final(self).next_id == old(self).next_id,
    {
        let n = self.rows.len();
        let mut i: usize = 0;
        while i < n
            invariant
                *self == *old(self),
                old(self).wf(),
                n == self.rows@.len(),
                i <= n,
                forall|j: int| 0 <= j < i ==> (#[trigger] self.rows@[j]).key() != project_id as int,
            decreases n - i,
        {
            if self.rows[i].id == project_id {
                proof {
                    lemma_assoc_map_at(self.rows@, i as int);
                    lemma_assoc_map_remove(self.rows@, i as int);
                    let removed = self.rows@.remove(i as int);
                    assert forall|a: int, b: int|
                        0 <= a < b < removed.len() implies (#[trigger] removed[a]).key() != (
                    #[trigger] removed[b]).key() by {
                        assert(removed[a] == if a < i as int {
                            self.rows@[a]
                        } else {
                            self.rows@[a + 1]
                        });
                        assert(removed[b] == if b < i as int {
                            self.rows@[b]
                        } else {
                            self.rows@[b + 1]
                        });
                    }
                    assert forall|j: int| 0 <= j < removed.len() implies (
                    #[trigger] removed[j]).id < self.next_id by {
                        assert(removed[j] == if j < i as int {
                            self.rows@[j]
                        } else {
                            self.rows@[j + 1]
                        });
                    }
                }
                let row = self.rows.remove(i);
                return Some(row);
            }
            i = i + 1;
        }
        proof {
            lemma_assoc_map_dom::<ActiveProjects>(self.rows@);
        }
        None
    }
}

} // verus!
