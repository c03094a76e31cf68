//! Association lists keyed by `u64`, abstracted as `Map<u64, V>`.
//!
//! The membership containers hold their records in vectors of key-value
//! pairs with pairwise-distinct keys; their contracts speak of the map a
//! vector denotes.  Later entries would win in `map_of`, but `upsert` keeps
//! keys unique, so each key denotes the one entry that carries it.

use vstd::prelude::*;

verus! {

/// The map a sequence of key-value pairs denotes; later pairs override
/// earlier ones.
pub open spec fn map_of<V>(entries: Seq<(u64, V)>) -> Map<u64, V>
    decreases entries.len(),
{
    if entries.len() == 0 {
        Map::empty()
    } else {
        map_of(entries.drop_last()).insert(entries.last().0, entries.last().1)
    }
}

/// No two entries carry the same key.
pub open spec fn unique_keys<V>(entries: Seq<(u64, V)>) -> bool {
    forall|i: int, j: int|
        0 <= i < j < entries.len() ==> (#[trigger] entries[i]).0 != (#[trigger] entries[j]).0
}

/// A key is in the denoted map exactly when some entry carries it.
pub proof fn lemma_map_of_domain<V>(entries: Seq<(u64, V)>, key: u64)
    ensures
        map_of(entries).contains_key(key) <==> exists|i: int|
            0 <= i < entries.len() && (#[trigger] entries[i]).0 == key,
    decreases entries.len(),
{
    if entries.len() > 0 {
        lemma_map_of_domain(entries.drop_last(), key);
        if entries.last().0 == key {
            assert(entries[entries.len() - 1].0 == key);
        } else if map_of(entries).contains_key(key) {
            let i = choose|i: int|
                0 <= i < entries.drop_last().len() && (#[trigger] entries.drop_last()[i]).0 == key;
            assert(entries[i].0 == key);
        } else {
            assert forall|i: int| 0 <= i < entries.len() implies (#[trigger] entries[i]).0 != key by {
                if i < entries.len() - 1 {
                    assert(entries.drop_last()[i].0 != key);
                }
            }
        }
    }
}

/// Under unique keys, the entry that carries a key gives its map value.
pub proof fn lemma_map_of_at<V>(entries: Seq<(u64, V)>, i: int)
    requires
        unique_keys(entries),
        0 <= i < entries.len(),
    ensures
        map_of(entries).contains_key(entries[i].0),
        map_of(entries)[entries[i].0] == entries[i].1,
    decreases entries.len(),
{
    if i < entries.len() - 1 {
        lemma_map_of_at(entries.drop_last(), i);
        assert(entries.drop_last()[i] == entries[i]);
    }
}

/// Appending a pair inserts it into the denoted map.
pub proof fn lemma_map_of_push<V>(entries: Seq<(u64, V)>, key: u64, value: V)
    ensures
        map_of(entries.push((key, value))) == map_of(entries).insert(key, value),
{
    assert(entries.push((key, value)).drop_last() =~= entries);
}

/// Under unique keys, removing an entry removes its key from the denoted map.
pub proof fn lemma_map_of_remove<V>(entries: Seq<(u64, V)>, i: int)
    requires
        unique_keys(entries),
        0 <= i < entries.len(),
    ensures
        map_of(entries.remove(i)) == map_of(entries).remove(entries[i].0),
    decreases entries.len(),
{
    let key = entries[i].0;
    if i == entries.len() - 1 {
        assert(entries.remove(i) =~= entries.drop_last());
        lemma_map_of_domain(entries.drop_last(), key);
        assert forall|j: int|
            0 <= j < entries.drop_last().len() implies (#[trigger] entries.drop_last()[j]).0
            != key by {
            assert(entries[j] == entries.drop_last()[j]);
        }
        assert(!map_of(entries.drop_last()).contains_key(key));
        assert(map_of(entries.drop_last()).insert(key, entries[i].1).remove(key) =~= map_of(
            entries.drop_last(),
        ));
    } else {
        lemma_map_of_remove(entries.drop_last(), i);
        assert(entries.remove(i).drop_last() =~= entries.drop_last().remove(i));
        assert(entries.remove(i).last() == entries.last());
        assert(map_of(entries.remove(i)) == map_of(entries.drop_last().remove(i)).insert(
            entries.last().0,
            entries.last().1,
        ));
        assert(map_of(entries).remove(key) =~= map_of(entries.drop_last()).remove(key).insert(
            entries.last().0,
            entries.last().1,
        ));
    }
}

/// Under unique keys, the denoted map has exactly one value per entry.
pub proof fn lemma_map_of_len<V>(entries: Seq<(u64, V)>)
    requires
        unique_keys(entries),
    ensures
        map_of(entries).dom().finite(),
        map_of(entries).dom().len() == entries.len(),
    decreases entries.len(),
{
    if entries.len() > 0 {
        lemma_map_of_len(entries.drop_last());
        lemma_map_of_domain(entries.drop_last(), entries.last().0);
        assert forall|j: int|
            0 <= j < entries.drop_last().len() implies (#[trigger] entries.drop_last()[j]).0
            != entries.last().0 by {
            assert(entries[j] == entries.drop_last()[j]);
            assert(entries[entries.len() - 1] == entries.last());
        }
        assert(!map_of(entries.drop_last()).contains_key(entries.last().0));
    }
}

/// The index of the entry that carries `key`, if any entry does.
pub fn find<V>(entries: &Vec<(u64, V)>, key: u64) -> (r: Option<usize>)
    ensures
        match r {
            Some(i) => i < entries@.len() && entries@[i as int].0 == key,
            None => forall|i: int|
                0 <= i < entries@.len() ==> (#[trigger] entries@[i]).0 != key,
        },
{
    let mut i: usize = 0;
    while i < entries.len()
        invariant
            i <= entries@.len(),
            forall|j: int| 0 <= j < i ==> (#[trigger] entries@[j]).0 != key,
        decreases entries@.len() - i,
    {
        if entries[i].0 == key {
            return Some(i);
        }
        i = i + 1;
    }
    None
}

/// Inserts or replaces the entry that carries `key`.
pub fn upsert<V>(entries: &mut Vec<(u64, V)>, key: u64, value: V)
    requires
        unique_keys(old(entries)@),
    ensures
        unique_keys(final(entries)@),
        map_of(final(entries)@) == map_of(old(entries)@).insert(key, value),
{
    let found = find(entries, key);
    proof {
        lemma_map_of_domain(entries@, key);
    }
    match found {
        Some(i) => {
            let ghost before = entries@;
            entries.remove(i);
            proof {
                lemma_map_of_remove(before, i as int);
                assert forall|a: int, b: int|
                    0 <= a < b < entries@.len() implies (#[trigger] entries@[a]).0
                    != (#[trigger] entries@[b]).0 by {
                    if b < i {
                        assert(entries@[a] == before[a] && entries@[b] == before[b]);
                    } else if a < i {
                        assert(entries@[a] == before[a] && entries@[b] == before[b + 1]);
                    } else {
                        assert(entries@[a] == before[a + 1] && entries@[b] == before[b + 1]);
                    }
                }
                assert forall|a: int| 0 <= a < entries@.len() implies (#[trigger] entries@[a]).0
                    != key by {
                    if a < i {
                        assert(entries@[a] == before[a]);
                    } else {
                        assert(entries@[a] == before[a + 1]);
                    }
                }
            }
            let ghost mid = entries@;
            entries.push((key, value));
            proof {
                lemma_map_of_push(mid, key, value);
                assert(map_of(before).remove(key).insert(key, value) =~= map_of(before).insert(
                    key,
                    value,
                ));
                assert forall|a: int, b: int|
                    0 <= a < b < entries@.len() implies (#[trigger] entries@[a]).0
                    != (#[trigger] entries@[b]).0 by {
                    if b < entries@.len() - 1 {
                        assert(entries@[a] == mid[a] && entries@[b] == mid[b]);
                    } else if a < entries@.len() - 1 {
                        assert(entries@[a] == mid[a]);
                        lemma_map_of_domain(mid, key);
                    }
                }
            }
        },
        None => {
            let ghost before = entries@;
            entries.push((key, value));
            proof {
                lemma_map_of_push(before, key, value);
                assert forall|a: int, b: int|
                    0 <= a < b < entries@.len() implies (#[trigger] entries@[a]).0
                    != (#[trigger] entries@[b]).0 by {
                    if b < entries@.len() - 1 {
                        assert(entries@[a] == before[a] && entries@[b] == before[b]);
                    } else if a < entries@.len() - 1 {
                        assert(entries@[a] == before[a]);
                    }
                }
            }
        },
    }
}

} // verus!
