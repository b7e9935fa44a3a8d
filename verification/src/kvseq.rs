//! The map read off a sequence of key-value entries.
//!
//! The store keeps its entries in vectors; contracts speak of the finite map
//! that such a sequence denotes, later entries shadowing earlier ones. With
//! pairwise-distinct keys nothing is shadowed, and the lemmas here relate the
//! vector operations (push, remove) to `insert` and `remove` on the map.

use vstd::prelude::*;

verus! {

/// The map denoted by a sequence of key-value entries.
pub open spec fn map_of<K, V>(entries: Seq<(K, V)>) -> Map<K, V>
    decreases entries.len(),
{
    if entries.len() == 0 {
        Map::empty()
    } else {
        map_of(entries.drop_last()).insert(entries.last().0, entries.last().1)
    }
}

/// No two entries share a key.
pub open spec fn distinct_keys<K, V>(entries: Seq<(K, V)>) -> bool {
    forall|i: int, j: int|
        0 <= i < j < entries.len() ==> (#[trigger] entries[i]).0 != (#[trigger] entries[j]).0
}

/// The keys of the entries, in order.
pub open spec fn keys_of<K, V>(entries: Seq<(K, V)>) -> Seq<K> {
    entries.map_values(|p: (K, V)| p.0)
}

/// The denoted map's domain is the set of keys, and is finite.
pub proof fn lemma_map_of_dom<K, V>(entries: Seq<(K, V)>)
    ensures
        map_of(entries).dom() =~= keys_of(entries).to_set(),
        map_of(entries).dom().finite(),
    decreases entries.len(),
{
    if entries.len() == 0 {
        assert(keys_of(entries).to_set() =~= Set::<K>::empty());
    } else {
        lemma_map_of_dom(entries.drop_last());
        assert(keys_of(entries).drop_last() =~= keys_of(entries.drop_last()));
        assert forall|k: K| keys_of(entries).to_set().contains(k) implies map_of(
            entries,
        ).dom().contains(k) by {
            let i = choose|i: int| 0 <= i < keys_of(entries).len() && keys_of(entries)[i] == k;
            if i < entries.len() - 1 {
                assert(keys_of(entries.drop_last())[i] == k);
            }
        }
        assert forall|k: K| map_of(entries).dom().contains(k) implies keys_of(
            entries,
        ).to_set().contains(k) by {
            if k == entries.last().0 {
                assert(keys_of(entries)[entries.len() - 1] == k);
            } else {
                assert(keys_of(entries.drop_last()).to_set().contains(k));
                let i = choose|i: int|
                    0 <= i < keys_of(entries.drop_last()).len() && keys_of(entries.drop_last())[i]
                        == k;
                assert(keys_of(entries)[i] == k);
            }
        }
    }
}

/// With distinct keys, every entry is in the denoted map with its own value.
pub proof fn lemma_map_of_index<K, V>(entries: Seq<(K, V)>, i: int)
    requires
        distinct_keys(entries),
        0 <= i < entries.len(),
    ensures
        map_of(entries).dom().contains(entries[i].0),
        map_of(entries)[entries[i].0] == entries[i].1,
    decreases entries.len(),
{
    if i < entries.len() - 1 {
        lemma_map_of_index(entries.drop_last(), i);
    }
}

/// A key under none of the entries is not in the denoted map.
pub proof fn lemma_map_of_absent<K, V>(entries: Seq<(K, V)>, k: K)
    requires
        forall|i: int| 0 <= i < entries.len() ==> (#[trigger] entries[i]).0 != k,
    ensures
        !map_of(entries).dom().contains(k),
    decreases entries.len(),
{
    if entries.len() > 0 {
        lemma_map_of_absent(entries.drop_last(), k);
    }
}

/// With distinct keys, the map has exactly one entry per key.
pub proof fn lemma_map_of_len<K, V>(entries: Seq<(K, V)>)
    requires
        distinct_keys(entries),
    ensures
        map_of(entries).dom().len() == entries.len(),
    decreases entries.len(),
{
    if entries.len() > 0 {
        lemma_map_of_len(entries.drop_last());
        lemma_map_of_absent(entries.drop_last(), entries.last().0);
        lemma_map_of_dom(entries.drop_last());
    }
}

/// Appending an entry inserts its pair into the denoted map.
pub proof fn lemma_map_of_push<K, V>(entries: Seq<(K, V)>, k: K, v: V)
    ensures
        map_of(entries.push((k, v))) == map_of(entries).insert(k, v),
{
    assert(entries.push((k, v)).drop_last() =~= entries);
}

/// Appending an entry under a fresh key keeps the keys distinct.
pub proof fn lemma_distinct_push<K, V>(entries: Seq<(K, V)>, k: K, v: V)
    requires
        distinct_keys(entries),
        forall|i: int| 0 <= i < entries.len() ==> (#[trigger] entries[i]).0 != k,
    ensures
        distinct_keys(entries.push((k, v))),
{
    let pushed = entries.push((k, v));
    assert forall|i: int, j: int| 0 <= i < j < pushed.len() implies (#[trigger] pushed[i]).0 != (
    #[trigger] pushed[j]).0 by {
        if j < entries.len() {
            assert(pushed[i] == entries[i] && pushed[j] == entries[j]);
        } else {
            assert(pushed[i] == entries[i] && pushed[j] == (k, v));
        }
    }
}

/// With distinct keys, removing an entry removes exactly its key from the
/// denoted map, and the remaining keys stay distinct.
pub proof fn lemma_map_of_remove<K, V>(entries: Seq<(K, V)>, i: int)
    requires
        distinct_keys(entries),
        0 <= i < entries.len(),
    ensures
        map_of(entries.remove(i)) =~= map_of(entries).remove(entries[i].0),
        distinct_keys(entries.remove(i)),
    decreases entries.len(),
{
    assert(distinct_keys(entries.remove(i)));
    if i == entries.len() - 1 {
        lemma_map_of_absent(entries.drop_last(), entries.last().0);
        assert(entries.remove(i) =~= entries.drop_last());
    } else {
        lemma_map_of_remove(entries.drop_last(), i);
        assert(entries.remove(i).drop_last() =~= entries.drop_last().remove(i));
        assert(entries.remove(i).last() == entries.last());
    }
}

} // verus!
