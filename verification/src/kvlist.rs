//! Specification helpers for association lists: the finite map that a
//! sequence of key-value pairs stands for, and the lemmas that relate list
//! operations to map operations. The store's containers (documents, index
//! trees, index registries) all keep their entries in vectors with unique
//! keys and use these helpers to state their contracts over `Map`.

use vstd::prelude::*;

verus! {

/// The mapping an entry list stands for. A later entry for a key overrides
/// an earlier one, matching insert-then-replace semantics; the containers
/// in this crate additionally keep their keys unique.
pub open spec fn assoc_map<K, V>(entries: Seq<(K, V)>) -> Map<K, V>
    decreases entries.len(),
{
    if entries.len() == 0 {
        Map::empty()
    } else {
        assoc_map(entries.drop_last()).insert(entries.last().0, entries.last().1)
    }
}

/// No two entries share a key.
pub open spec fn unique_keys<K, V>(entries: Seq<(K, V)>) -> bool {
    forall|i: int, j: int|
        0 <= i < j < entries.len() ==> (#[trigger] entries[i]).0 != (#[trigger] entries[j]).0
}

/// A key is in the map exactly when some entry carries it.
pub proof fn lemma_assoc_map_domain<K, V>(entries: Seq<(K, V)>, k: K)
    ensures
        assoc_map(entries).contains_key(k) <==> exists|i: int|
            0 <= i < entries.len() && (#[trigger] entries[i]).0 == k,
    decreases entries.len(),
{
    if entries.len() > 0 {
        lemma_assoc_map_domain(entries.drop_last(), k);
        if entries.last().0 == k {
            assert(entries[entries.len() - 1].0 == k);
        } else {
            if exists|i: int| 0 <= i < entries.len() && (#[trigger] entries[i]).0 == k {
                let i = choose|i: int| 0 <= i < entries.len() && (#[trigger] entries[i]).0 == k;
                if assoc_map(entries).contains_key(k) {
                } else {
                    assert(entries.drop_last()[i] == entries[i]);
                }
            }
        }
    }
}

/// With unique keys, the entry at position `i` gives the map's value for
/// its key.
pub proof fn lemma_assoc_map_at<K, V>(entries: Seq<(K, V)>, i: int)
    requires
        unique_keys(entries),
        0 <= i < entries.len(),
    ensures
        assoc_map(entries).contains_key(entries[i].0),
        assoc_map(entries)[entries[i].0] == entries[i].1,
    decreases entries.len(),
{
    if i == entries.len() - 1 {
    } else {
        assert(unique_keys(entries.drop_last())) by {
            assert(forall|a: int, b: int|
                0 <= a < b < entries.drop_last().len() ==> {
                    &&& entries.drop_last()[a] == entries[a]
                    &&& entries.drop_last()[b] == entries[b]
                });
        }
        lemma_assoc_map_at(entries.drop_last(), i);
        assert(entries.drop_last()[i] == entries[i]);
        assert(entries[i].0 != entries.last().0);
    }
}

/// Replacing the value at position `i` replaces the value for that entry's
/// key in the map, and keeps the keys unique.
pub proof fn lemma_assoc_map_update<K, V>(entries: Seq<(K, V)>, i: int, v: V)
    requires
        unique_keys(entries),
        0 <= i < entries.len(),
    ensures
        unique_keys(entries.update(i, (entries[i].0, v))),
        assoc_map(entries.update(i, (entries[i].0, v))) == assoc_map(entries).insert(
            entries[i].0,
            v,
        ),
    decreases entries.len(),
{
    let updated = entries.update(i, (entries[i].0, v));
    assert(unique_keys(updated)) by {
        assert(forall|a: int| 0 <= a < entries.len() ==> (#[trigger] updated[a]).0 == entries[a].0);
    }
    if i == entries.len() - 1 {
        assert(updated.drop_last() =~= entries.drop_last());
        assert(assoc_map(updated) =~= assoc_map(entries).insert(entries[i].0, v));
    } else {
        assert(unique_keys(entries.drop_last())) by {
            assert(forall|a: int, b: int|
                0 <= a < b < entries.drop_last().len() ==> {
                    &&& entries.drop_last()[a] == entries[a]
                    &&& entries.drop_last()[b] == entries[b]
                });
        }
        lemma_assoc_map_update(entries.drop_last(), i, v);
        assert(entries.drop_last()[i] == entries[i]);
        assert(updated.drop_last() =~= entries.drop_last().update(i, (entries[i].0, v)));
        assert(updated.last() == entries.last());
        assert(entries[i].0 != entries.last().0);
        assert(assoc_map(updated) =~= assoc_map(entries).insert(entries[i].0, v));
    }
}

/// Appending an entry for a fresh key extends the map and keeps the keys
/// unique.
pub proof fn lemma_assoc_map_push<K, V>(entries: Seq<(K, V)>, k: K, v: V)
    requires
        unique_keys(entries),
        forall|i: int| 0 <= i < entries.len() ==> (#[trigger] entries[i]).0 != k,
    ensures
        unique_keys(entries.push((k, v))),
        assoc_map(entries.push((k, v))) == assoc_map(entries).insert(k, v),
{
    let pushed = entries.push((k, v));
    assert(unique_keys(pushed)) by {
        assert(forall|a: int| 0 <= a < entries.len() ==> pushed[a] == entries[a]);
        assert(pushed[entries.len() as int].0 == k);
    }
    assert(pushed.drop_last() =~= entries);
}

/// Removing the entry at position `i` removes its key from the map, and
/// keeps the keys unique.
pub proof fn lemma_assoc_map_remove<K, V>(entries: Seq<(K, V)>, i: int)
    requires
        unique_keys(entries),
        0 <= i < entries.len(),
    ensures
        unique_keys(entries.remove(i)),
        assoc_map(entries.remove(i)) == assoc_map(entries).remove(entries[i].0),
    decreases entries.len(),
{
    let removed = entries.remove(i);
    assert(unique_keys(removed)) by {
        assert(forall|a: int|
            0 <= a < removed.len() ==> #[trigger] removed[a] == if a < i {
                entries[a]
            } else {
                entries[a + 1]
            });
    }
    if i == entries.len() - 1 {
        assert(removed =~= entries.drop_last());
        assert(!assoc_map(entries.drop_last()).contains_key(entries[i].0)) by {
            lemma_assoc_map_domain(entries.drop_last(), entries[i].0);
            assert(forall|a: int|
                0 <= a < entries.drop_last().len() ==> #[trigger] entries.drop_last()[a]
                    == entries[a]);
        }
        assert(assoc_map(removed) =~= assoc_map(entries).remove(entries[i].0));
    } else {
        assert(unique_keys(entries.drop_last())) by {
            assert(forall|a: int, b: int|
                0 <= a < b < entries.drop_last().len() ==> {
                    &&& entries.drop_last()[a] == entries[a]
                    &&& entries.drop_last()[b] == entries[b]
                });
        }
        lemma_assoc_map_remove(entries.drop_last(), i);
        assert(entries.drop_last()[i] == entries[i]);
        assert(removed.drop_last() =~= entries.drop_last().remove(i));
        assert(removed.last() == entries.last());
        assert(entries[i].0 != entries.last().0);
        assert(assoc_map(removed) =~= assoc_map(entries).remove(entries[i].0));
    }
}

} // verus!
