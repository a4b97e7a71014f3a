//! Map views of keyed row vectors.
//!
//! The in-memory store keeps its tables as vectors of rows with unique
//! keys; contracts speak about them through the [`assoc_map`] view.

use vstd::prelude::*;

verus! {

/// A row type with a ghost-level key.
pub trait Keyed {
    type Key;

    spec fn key(self) -> Self::Key;
}

/// The map view of a row sequence: later rows shadow earlier ones, though
/// well-formed tables keep keys unique.
pub open spec fn assoc_map<T: Keyed>(rows: Seq<T>) -> Map<T::Key, T>
    decreases rows.len(),
{
    if rows.len() == 0 {
        Map::empty()
    } else {
        assoc_map(rows.drop_last()).insert(rows.last().key(), rows.last())
    }
}

/// No two rows carry the same key.
pub open spec fn keys_unique<T: Keyed>(rows: Seq<T>) -> bool {
    forall|i: int, j: int| 0 <= i < j < rows.len() ==> rows[i].key() != rows[j].key()
}

/// How many rows carry this key.
pub open spec fn row_count<T: Keyed>(rows: Seq<T>, k: T::Key) -> int
    decreases rows.len(),
{
    if rows.len() == 0 {
        0
    } else {
        row_count(rows.drop_last(), k) + if rows.last().key() == k {
            1int
        } else {
            0int
        }
    }
}

/// With unique keys, a key in the view is carried by exactly one row, and
/// one outside it by none.
pub proof fn lemma_unique_key_count<T: Keyed>(rows: Seq<T>, k: T::Key)
    requires
        keys_unique(rows),
    ensures
        assoc_map(rows).contains_key(k) ==> row_count(rows, k) == 1,
        !assoc_map(rows).contains_key(k) ==> row_count(rows, k) == 0,
    decreases rows.len(),
{
    if rows.len() == 0 {
    } else {
        let prefix = rows.drop_last();
        assert(forall|a: int, b: int|
            0 <= a < b < prefix.len() ==> (#[trigger] prefix[a]).key() != (
            #[trigger] prefix[b]).key());
        lemma_unique_key_count(prefix, k);
        lemma_assoc_map_dom::<T>(prefix);
        if rows.last().key() == k {
            if assoc_map(prefix).contains_key(k) {
                let i = choose|i: int| 0 <= i < prefix.len() && (#[trigger] prefix[i]).key() == k;
                assert(prefix[i] == rows[i]);
                assert(rows[i].key() == rows[rows.len() - 1].key());
                assert(false);
            }
        }
    }
}

/// A key is in the view exactly when some row carries it.
pub proof fn lemma_assoc_map_dom<T: Keyed>(rows: Seq<T>)
    ensures
        forall|k: T::Key| #[trigger]
            assoc_map(rows).contains_key(k) <==> exists|i: int|
                0 <= i < rows.len() && (#[trigger] rows[i]).key() == k,
    decreases rows.len(),
{
    if rows.len() == 0 {
    } else {
        let prefix = rows.drop_last();
        lemma_assoc_map_dom(prefix);
        assert forall|k: T::Key| #[trigger] assoc_map(rows).contains_key(k) implies exists|i: int|
            0 <= i < rows.len() && (#[trigger] rows[i]).key() == k by {
            if k == rows.last().key() {
                assert(rows[rows.len() - 1].key() == k);
            } else {
                assert(assoc_map(prefix).contains_key(k));
                let i = choose|i: int| 0 <= i < prefix.len() && (#[trigger] prefix[i]).key() == k;
                assert(prefix[i] == rows[i]);
                assert(rows[i].key() == k);
            }
        }
        assert forall|k: T::Key|
            exists|i: int|
                0 <= i < rows.len() && (#[trigger] rows[i]).key() == k implies #[trigger] assoc_map(
            rows,
        ).contains_key(k) by {
            let i = choose|i: int| 0 <= i < rows.len() && (#[trigger] rows[i]).key() == k;
            if i < rows.len() - 1 {
                assert(prefix[i] == rows[i]);
                assert(prefix[i].key() == k);
                assert(assoc_map(prefix).contains_key(k));
            }
        }
    }
}

/// With unique keys, the view maps each row's key to that row.
pub proof fn lemma_assoc_map_at<T: Keyed>(rows: Seq<T>, i: int)
    requires
        keys_unique(rows),
        0 <= i < rows.len(),
    ensures
        assoc_map(rows).contains_key(rows[i].key()),
        assoc_map(rows)[rows[i].key()] == rows[i],
    decreases rows.len(),
{
    let prefix = rows.drop_last();
    if i == rows.len() - 1 {
    } else {
        assert(forall|a: int, b: int|
            0 <= a < b < prefix.len() ==> (#[trigger] prefix[a]).key() != (
            #[trigger] prefix[b]).key());
        lemma_assoc_map_at(prefix, i);
        assert(prefix[i] == rows[i]);
        assert(rows[i].key() != rows.last().key());
    }
}

/// Appending a fresh row inserts it into the view.
pub proof fn lemma_assoc_map_push<T: Keyed>(rows: Seq<T>, x: T)
    ensures
        assoc_map(rows.push(x)) == assoc_map(rows).insert(x.key(), x),
{
    assert(rows.push(x).drop_last() =~= rows);
    assert(rows.push(x).last() == x);
}

/// Replacing a row in place, key kept, overwrites its entry in the view.
pub proof fn lemma_assoc_map_update<T: Keyed>(rows: Seq<T>, i: int, x: T)
    requires
        keys_unique(rows),
        0 <= i < rows.len(),
        x.key() == rows[i].key(),
    ensures
        assoc_map(rows.update(i, x)) == assoc_map(rows).insert(x.key(), x),
    decreases rows.len(),
{
    let prefix = rows.drop_last();
    if i == rows.len() - 1 {
        assert(rows.update(i, x).drop_last() =~= prefix);
        assert(rows.update(i, x).last() == x);
        assert(assoc_map(prefix).insert(rows.last().key(), rows.last()).insert(x.key(), x)
            =~= assoc_map(prefix).insert(x.key(), x));
    } else {
        assert(forall|a: int, b: int|
            0 <= a < b < prefix.len() ==> (#[trigger] prefix[a]).key() != (
            #[trigger] prefix[b]).key());
        assert(prefix[i] == rows[i]);
        lemma_assoc_map_update(prefix, i, x);
        assert(rows.update(i, x).drop_last() =~= prefix.update(i, x));
        assert(rows.update(i, x).last() == rows.last());
        assert(x.key() != rows.last().key());
        assert(assoc_map(prefix).insert(x.key(), x).insert(rows.last().key(), rows.last())
            =~= assoc_map(prefix).insert(rows.last().key(), rows.last()).insert(x.key(), x));
    }
}

/// Deleting a row removes exactly its key from the view.
pub proof fn lemma_assoc_map_remove<T: Keyed>(rows: Seq<T>, i: int)
    requires
        keys_unique(rows),
        0 <= i < rows.len(),
    ensures
        assoc_map(rows.remove(i)) == assoc_map(rows).remove(rows[i].key()),
    decreases rows.len(),
{
    let prefix = rows.drop_last();
    if i == rows.len() - 1 {
        assert(rows.remove(i) =~= prefix);
        lemma_assoc_map_dom::<T>(prefix);
        if assoc_map(prefix).contains_key(rows[i].key()) {
            let j = choose|j: int|
                0 <= j < prefix.len() && (#[trigger] prefix[j]).key() == rows[i].key();
            assert(prefix[j] == rows[j]);
            assert(rows[j].key() == rows[i].key());
            assert(false);
        }
        assert(assoc_map(prefix).insert(rows.last().key(), rows.last()).remove(rows[i].key())
            =~= assoc_map(prefix));
    } else {
        assert(forall|a: int, b: int|
            0 <= a < b < prefix.len() ==> (#[trigger] prefix[a]).key() != (
            #[trigger] prefix[b]).key());
        assert(prefix[i] == rows[i]);
        lemma_assoc_map_remove(prefix, i);
        assert(rows.remove(i).drop_last() =~= prefix.remove(i));
        assert(rows.remove(i).last() == rows.last());
        assert(rows[i].key() != rows.last().key());
        assert(assoc_map(prefix).remove(rows[i].key()).insert(rows.last().key(), rows.last())
            =~= assoc_map(prefix).insert(rows.last().key(), rows.last()).remove(rows[i].key()));
    }
}

} // verus!
