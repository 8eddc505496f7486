use vstd::prelude::*;

verus! {

/// The map that a list of key-value entries stands for, later entries winning.
pub open spec fn assoc_map<K, V>(entries: Seq<(K, V)>) -> Map<K, V>
    decreases entries.len(),
{
    if entries.len() == 0 {
        Map::empty()
    } else {
        assoc_map(entries.drop_last()).insert(entries.last().0, entries.last().1)
    }
}

/// No two entries have the same key.
pub open spec fn keys_distinct<K, V>(entries: Seq<(K, V)>) -> bool {
    forall|i: int, j: int|
        0 <= i < entries.len() && 0 <= j < entries.len() && i != j ==> #[trigger] entries[i].0
            != #[trigger] entries[j].0
}

/// With distinct keys, the map holds exactly the keys of the entries, each with its value.
pub proof fn lemma_assoc_map<K, V>(entries: Seq<(K, V)>)
    requires
        keys_distinct(entries),
    ensures
        forall|k: K|
            #[trigger] assoc_map(entries).contains_key(k) <==> exists|i: int|
                0 <= i < entries.len() && #[trigger] entries[i].0 == k,
        forall|i: int| 0 <= i < entries.len() ==> #[trigger] assoc_map(entries)[entries[i].0] == entries[i].1,
    decreases entries.len(),
{
    if entries.len() > 0 {
        let init = entries.drop_last();
        assert(keys_distinct(init)) by {
            assert forall|i: int, j: int|
                0 <= i < init.len() && 0 <= j < init.len() && i != j implies #[trigger] init[i].0
                != #[trigger] init[j].0 by {
                assert(init[i] == entries[i] && init[j] == entries[j]);
            }
        }
        lemma_assoc_map(init);
        let last = entries.len() - 1;
        assert forall|k: K|
            #[trigger] assoc_map(entries).contains_key(k) <==> exists|i: int|
                0 <= i < entries.len() && #[trigger] entries[i].0 == k by {
            if assoc_map(entries).contains_key(k) && k != entries[last].0 {
                assert(assoc_map(init).contains_key(k));
                let i = choose|i: int| 0 <= i < init.len() && #[trigger] init[i].0 == k;
                assert(entries[i] == init[i]);
                assert(entries[i].0 == k);
            }
            if assoc_map(entries).contains_key(k) && k == entries[last].0 {
                assert(entries[last].0 == k);
            }
            if exists|i: int| 0 <= i < entries.len() && #[trigger] entries[i].0 == k {
                let i = choose|i: int| 0 <= i < entries.len() && #[trigger] entries[i].0 == k;
                if i < last {
                    assert(init[i] == entries[i]);
                    assert(assoc_map(init).contains_key(k));
                }
            }
        }
        assert forall|i: int| 0 <= i < entries.len() implies #[trigger] assoc_map(entries)[entries[i].0]
            == entries[i].1 by {
            if i < last {
                assert(init[i] == entries[i]);
                assert(entries[i].0 != entries[last].0);
                assert(assoc_map(init)[init[i].0] == init[i].1);
            }
        }
    }
}

/// Giving entry `i` a new value changes the map at its key only.
pub proof fn lemma_assoc_update<K, V>(entries: Seq<(K, V)>, i: int, value: V)
    requires
        keys_distinct(entries),
        0 <= i < entries.len(),
    ensures
        keys_distinct(entries.update(i, (entries[i].0, value))),
        assoc_map(entries.update(i, (entries[i].0, value))) == assoc_map(entries).insert(
            entries[i].0,
            value,
        ),
{
    let e2 = entries.update(i, (entries[i].0, value));
    assert(keys_distinct(e2)) by {
        assert forall|a: int, b: int|
            0 <= a < e2.len() && 0 <= b < e2.len() && a != b implies #[trigger] e2[a].0
            != #[trigger] e2[b].0 by {
            assert(e2[a].0 == entries[a].0 && e2[b].0 == entries[b].0);
        }
    }
    lemma_assoc_map(entries);
    lemma_assoc_map(e2);
    let m1 = assoc_map(entries).insert(entries[i].0, value);
    let m2 = assoc_map(e2);
    assert forall|k: K| m2.contains_key(k) <==> m1.contains_key(k) by {
        if m2.contains_key(k) {
            let j = choose|j: int| 0 <= j < e2.len() && #[trigger] e2[j].0 == k;
            assert(entries[j].0 == k);
        }
        if m1.contains_key(k) && k != entries[i].0 {
            let j = choose|j: int| 0 <= j < entries.len() && #[trigger] entries[j].0 == k;
            assert(e2[j].0 == k);
        }
        if k == entries[i].0 {
            assert(e2[i].0 == k);
        }
    }
    assert forall|k: K| m2.contains_key(k) implies m2[k] == m1[k] by {
        let j = choose|j: int| 0 <= j < e2.len() && #[trigger] e2[j].0 == k;
        assert(m2[e2[j].0] == e2[j].1);
        if j != i {
            assert(entries[j].0 == k);
            assert(assoc_map(entries)[entries[j].0] == entries[j].1);
        }
    }
    assert(m2 =~= m1);
}

/// Adding an entry under a new key adds that key to the map.
pub proof fn lemma_assoc_push<K, V>(entries: Seq<(K, V)>, entry: (K, V))
    requires
        keys_distinct(entries),
        !assoc_map(entries).contains_key(entry.0),
    ensures
        keys_distinct(entries.push(entry)),
        assoc_map(entries.push(entry)) == assoc_map(entries).insert(entry.0, entry.1),
{
    lemma_assoc_map(entries);
    let e2 = entries.push(entry);
    assert(keys_distinct(e2)) by {
        assert forall|a: int, b: int|
            0 <= a < e2.len() && 0 <= b < e2.len() && a != b implies #[trigger] e2[a].0
            != #[trigger] e2[b].0 by {
            if a == entries.len() {
                assert(e2[b] == entries[b]);
            } else if b == entries.len() {
                assert(e2[a] == entries[a]);
            } else {
                assert(e2[a] == entries[a] && e2[b] == entries[b]);
            }
        }
    }
    assert(e2.drop_last() =~= entries);
}


/// Whether or not the keys are distinct, the map holds exactly the keys of the entries, each
/// with the value of its last entry.
pub proof fn lemma_assoc_map_last<K, V>(entries: Seq<(K, V)>, k: K)
    ensures
        assoc_map(entries).contains_key(k) <==> exists|i: int| 0 <= i < entries.len() && #[trigger] entries[i].0 == k,
        assoc_map(entries).contains_key(k) ==> exists|i: int|
            0 <= i < entries.len() && #[trigger] entries[i].0 == k && assoc_map(entries)[k] == entries[i].1
                && forall|j: int| i < j < entries.len() ==> entries[j].0 != k,
    decreases entries.len(),
{
    if entries.len() > 0 {
        let init = entries.drop_last();
        let last = entries.len() - 1;
        lemma_assoc_map_last(init, k);
        if entries[last].0 == k {
            assert(entries[last].0 == k && assoc_map(entries)[k] == entries[last].1);
        } else {
            if exists|i: int| 0 <= i < init.len() && #[trigger] init[i].0 == k {
                let i = choose|i: int| 0 <= i < init.len() && #[trigger] init[i].0 == k && assoc_map(init)[k] == init[i].1
                    && forall|j: int| i < j < init.len() ==> init[j].0 != k;
                assert(entries[i].0 == k);
                assert forall|j: int| i < j < entries.len() implies entries[j].0 != k by {
                    if j < last {
                        assert(entries[j] == init[j]);
                    }
                }
            }
            if exists|i: int| 0 <= i < entries.len() && #[trigger] entries[i].0 == k {
                let i = choose|i: int| 0 <= i < entries.len() && #[trigger] entries[i].0 == k;
                assert(init[i].0 == k);
            }
        }
    }
}

} // verus!
