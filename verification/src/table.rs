//! Lists of key-value pairs read as maps, and the comparison of byte strings.

use vstd::prelude::*;

verus! {

/// The map that a list of pairs stands for. Where a key occurs twice the
/// later pair counts.
pub open spec fn assoc_map<K, V>(pairs: Seq<(K, V)>) -> Map<K, V>
    decreases pairs.len(),
{
    if pairs.len() == 0 {
        Map::empty()
    } else {
        assoc_map(pairs.drop_last()).insert(pairs.last().0, pairs.last().1)
    }
}

/// No key occurs twice.
pub open spec fn distinct_keys<K, V>(pairs: Seq<(K, V)>) -> bool {
    forall|i: int, j: int| 0 <= i < j < pairs.len() ==> pairs[i].0 != pairs[j].0
}

/// A key is in the map exactly if some pair has it.
pub proof fn lemma_assoc_dom<K, V>(pairs: Seq<(K, V)>, key: K)
    ensures
        assoc_map(pairs).dom().contains(key) <==> exists|i: int|
            0 <= i < pairs.len() && (#[trigger] pairs[i]).0 == key,
    decreases pairs.len(),
{
    if pairs.len() > 0 {
        let init = pairs.drop_last();
        lemma_assoc_dom(init, key);
        if assoc_map(pairs).dom().contains(key) {
            if pairs.last().0 == key {
                assert(pairs[pairs.len() - 1].0 == key);
            } else {
                let i = choose|i: int| 0 <= i < init.len() && (#[trigger] init[i]).0 == key;
                assert(pairs[i].0 == key);
            }
        }
        if exists|i: int| 0 <= i < pairs.len() && (#[trigger] pairs[i]).0 == key {
            let i = choose|i: int| 0 <= i < pairs.len() && (#[trigger] pairs[i]).0 == key;
            if i < init.len() {
                assert(init[i].0 == key);
            }
        }
    }
}

/// A key that no pair has is not in the map.
pub proof fn lemma_assoc_absent<K, V>(pairs: Seq<(K, V)>, key: K)
    requires
        forall|i: int| 0 <= i < pairs.len() ==> (#[trigger] pairs[i]).0 != key,
    ensures
        !assoc_map(pairs).dom().contains(key),
{
    lemma_assoc_dom(pairs, key);
}

/// With distinct keys, the map gives each pair's key its value.
pub proof fn lemma_assoc_at<K, V>(pairs: Seq<(K, V)>, i: int)
    requires
        distinct_keys(pairs),
        0 <= i < pairs.len(),
    ensures
        assoc_map(pairs).dom().contains(pairs[i].0),
        assoc_map(pairs)[pairs[i].0] == pairs[i].1,
    decreases pairs.len(),
{
    if i < pairs.len() - 1 {
        let init = pairs.drop_last();
        assert(init[i] == pairs[i]);
        assert(pairs[i].0 != pairs[pairs.len() - 1].0);
        lemma_assoc_at(init, i);
    }
}

/// A pair added at the end is an insertion into the map.
pub proof fn lemma_assoc_push<K, V>(pairs: Seq<(K, V)>, key: K, value: V)
    ensures
        assoc_map(pairs.push((key, value))) == assoc_map(pairs).insert(key, value),
{
    assert(pairs.push((key, value)).drop_last() =~= pairs);
}

/// With distinct keys, a new value in one pair is an insertion into the map,
/// and the keys stay distinct.
pub proof fn lemma_assoc_update<K, V>(pairs: Seq<(K, V)>, i: int, value: V)
    requires
        distinct_keys(pairs),
        0 <= i < pairs.len(),
    ensures
        distinct_keys(pairs.update(i, (pairs[i].0, value))),
        assoc_map(pairs.update(i, (pairs[i].0, value))) == assoc_map(pairs).insert(
            pairs[i].0,
            value,
        ),
    decreases pairs.len(),
{
    let updated = pairs.update(i, (pairs[i].0, value));
    assert(distinct_keys(updated)) by {
        assert forall|a: int, b: int| 0 <= a < b < updated.len() implies updated[a].0
            != updated[b].0 by {
            assert(updated[a].0 == pairs[a].0);
            assert(updated[b].0 == pairs[b].0);
        }
    }
    let init = pairs.drop_last();
    if i == pairs.len() - 1 {
        assert(updated.drop_last() =~= init);
        assert(assoc_map(updated) =~= assoc_map(pairs).insert(pairs[i].0, value));
    } else {
        assert(init[i] == pairs[i]);
        assert(distinct_keys(init)) by {
            assert forall|a: int, b: int| 0 <= a < b < init.len() implies init[a].0
                != init[b].0 by {
                assert(init[a] == pairs[a]);
                assert(init[b] == pairs[b]);
            }
        }
        lemma_assoc_update(init, i, value);
        assert(updated.drop_last() =~= init.update(i, (pairs[i].0, value)));
        assert(updated.last() == pairs.last());
        assert(pairs[i].0 != pairs[pairs.len() - 1].0);
        assert(assoc_map(updated) =~= assoc_map(pairs).insert(pairs[i].0, value));
    }
}

/// With distinct keys, taking a pair out takes its key out of the map, and
/// the keys stay distinct.
pub proof fn lemma_assoc_remove<K, V>(pairs: Seq<(K, V)>, i: int)
    requires
        distinct_keys(pairs),
        0 <= i < pairs.len(),
    ensures
        distinct_keys(pairs.remove(i)),
        assoc_map(pairs.remove(i)) == assoc_map(pairs).remove(pairs[i].0),
    decreases pairs.len(),
{
    let removed = pairs.remove(i);
    assert(distinct_keys(removed)) by {
        assert forall|a: int, b: int| 0 <= a < b < removed.len() implies removed[a].0
            != removed[b].0 by {
            let a0 = if a < i { a } else { a + 1 };
            let b0 = if b < i { b } else { b + 1 };
            assert(removed[a] == pairs[a0]);
            assert(removed[b] == pairs[b0]);
        }
    }
    let init = pairs.drop_last();
    assert(distinct_keys(init)) by {
        assert forall|a: int, b: int| 0 <= a < b < init.len() implies init[a].0 != init[b].0 by {
            assert(init[a] == pairs[a]);
            assert(init[b] == pairs[b]);
        }
    }
    if i == pairs.len() - 1 {
        assert(removed =~= init);
        assert forall|j: int| 0 <= j < init.len() implies (#[trigger] init[j]).0
            != pairs[i].0 by {
            assert(init[j] == pairs[j]);
        }
        lemma_assoc_absent(init, pairs[i].0);
        assert(assoc_map(init) =~= assoc_map(pairs).remove(pairs[i].0));
    } else {
        assert(init[i] == pairs[i]);
        lemma_assoc_remove(init, i);
        assert(removed.drop_last() =~= init.remove(i));
        assert(removed.last() == pairs.last());
        assert(pairs[i].0 != pairs[pairs.len() - 1].0);
        assert(assoc_map(removed) =~= assoc_map(pairs).remove(pairs[i].0));
    }
}

/// With distinct keys, a pair with a new key at the end keeps them distinct.
pub proof fn lemma_distinct_push<K, V>(pairs: Seq<(K, V)>, key: K, value: V)
    requires
        distinct_keys(pairs),
        forall|i: int| 0 <= i < pairs.len() ==> (#[trigger] pairs[i]).0 != key,
    ensures
        distinct_keys(pairs.push((key, value))),
{
    let pushed = pairs.push((key, value));
    assert forall|a: int, b: int| 0 <= a < b < pushed.len() implies pushed[a].0
        != pushed[b].0 by {
        assert(pushed[a] == pairs[a]);
        if b < pairs.len() {
            assert(pushed[b] == pairs[b]);
        }
    }
}

/// The values of a list of byte strings, in order.
pub open spec fn ids_view(ids: Seq<Vec<u8>>) -> Seq<Seq<u8>> {
    Seq::new(ids.len(), |i: int| ids[i]@)
}

/// Whether two byte strings hold the same bytes.
pub fn same_bytes(a: &[u8], b: &[u8]) -> (same: bool)
    ensures
        same == (a@ == b@),
{
    if a.len() != b.len() {
        return false;
    }
    let mut i: usize = 0;
    while i < a.len()
        invariant
            a.len() == b.len(),
            i <= a.len(),
            forall|j: int| 0 <= j < i ==> a@[j] == b@[j],
        decreases a.len() - i,
    {
        if a[i] != b[i] {
            return false;
        }
        i += 1;
    }
    assert(a@ =~= b@);
    true
}

/// A copy of a byte string.
pub fn copy_bytes(a: &[u8]) -> (copy: Vec<u8>)
    ensures
        copy@ == a@,
{
    let mut copy: Vec<u8> = Vec::new();
    let mut i: usize = 0;
    while i < a.len()
        invariant
            i <= a.len(),
            copy@ == a@.subrange(0, i as int),
        decreases a.len() - i,
    {
        copy.push(a[i]);
        assert(a@.subrange(0, i + 1) =~= a@.subrange(0, i as int).push(a@[i as int]));
        i += 1;
    }
    assert(a@.subrange(0, a@.len() as int) =~= a@);
    copy
}

/// A copy of a list of byte strings.
pub fn copy_ids(ids: &[Vec<u8>]) -> (copy: Vec<Vec<u8>>)
    ensures
        ids_view(copy@) == ids_view(ids@),
{
    let mut copy: Vec<Vec<u8>> = Vec::new();
    let mut i: usize = 0;
    while i < ids.len()
        invariant
            i <= ids.len(),
            copy@.len() == i,
            forall|j: int| 0 <= j < i ==> copy@[j]@ == ids@[j]@,
        decreases ids.len() - i,
    {
        copy.push(copy_bytes(ids[i].as_slice()));
        i += 1;
    }
    assert(ids_view(copy@) =~= ids_view(ids@));
    copy
}

} // verus!
