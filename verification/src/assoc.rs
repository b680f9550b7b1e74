//! Association lists: sequences of key/value pairs read as maps, the last pair of a key deciding.
use vstd::prelude::*;

verus! {

/// The map that a sequence of pairs stands for: later pairs replace earlier ones.
pub open spec fn assoc_map<V>(pairs: Seq<(Seq<char>, V)>) -> Map<Seq<char>, V>
    decreases pairs.len(),
{
    if pairs.len() == 0 {
        Map::empty()
    } else {
        assoc_map(pairs.drop_last()).insert(pairs.last().0, pairs.last().1)
    }
}

/// No key occurs twice.
pub open spec fn distinct_keys<V>(pairs: Seq<(Seq<char>, V)>) -> bool {
    forall|i: int, j: int|
        0 <= i < j < pairs.len() ==> (#[trigger] pairs[i]).0 != (#[trigger] pairs[j]).0
}

/// A key is in the map exactly if some pair carries it.
pub proof fn lemma_assoc_dom<V>(pairs: Seq<(Seq<char>, V)>, key: Seq<char>)
    ensures
        assoc_map(pairs).contains_key(key) <==> exists|i: int|
            0 <= i < pairs.len() && (#[trigger] pairs[i]).0 == key,
    decreases pairs.len(),
{
    if pairs.len() > 0 {
        let rest = pairs.drop_last();
        lemma_assoc_dom(rest, key);
        if pairs.last().0 == key {
            assert(pairs[pairs.len() - 1].0 == key);
        }
        if assoc_map(rest).contains_key(key) {
            let i = choose|i: int| 0 <= i < rest.len() && (#[trigger] rest[i]).0 == key;
            assert(pairs[i].0 == key);
        }
        if exists|i: int| 0 <= i < pairs.len() && (#[trigger] pairs[i]).0 == key {
            let i = choose|i: int| 0 <= i < pairs.len() && (#[trigger] pairs[i]).0 == key;
            if i < rest.len() {
                assert(rest[i].0 == key);
            }
        }
    }
}

/// The last pair of a key gives its value.
pub proof fn lemma_assoc_last<V>(pairs: Seq<(Seq<char>, V)>, i: int)
    requires
        0 <= i < pairs.len(),
        forall|j: int| i < j < pairs.len() ==> (#[trigger] pairs[j]).0 != pairs[i].0,
    ensures
        assoc_map(pairs).contains_key(pairs[i].0),
        assoc_map(pairs)[pairs[i].0] == pairs[i].1,
    decreases pairs.len(),
{
    let rest = pairs.drop_last();
    if i < rest.len() {
        assert(pairs[pairs.len() - 1].0 != pairs[i].0);
        assert forall|j: int| i < j < rest.len() implies (#[trigger] rest[j]).0 != rest[i].0 by {
            assert(pairs[j].0 != pairs[i].0);
        }
        lemma_assoc_last(rest, i);
    }
}

/// In a list without repeated keys the map holds the pairs and nothing else.
pub proof fn lemma_assoc_distinct<V>(pairs: Seq<(Seq<char>, V)>)
    requires
        distinct_keys(pairs),
    ensures
        forall|key: Seq<char>| #[trigger]
            assoc_map(pairs).contains_key(key) <==> exists|i: int|
                0 <= i < pairs.len() && (#[trigger] pairs[i]).0 == key,
        forall|i: int|
            0 <= i < pairs.len() ==> assoc_map(pairs)[(#[trigger] pairs[i]).0] == pairs[i].1,
{
    assert forall|key: Seq<char>| #[trigger]
        assoc_map(pairs).contains_key(key) <==> exists|i: int|
            0 <= i < pairs.len() && (#[trigger] pairs[i]).0 == key by {
        lemma_assoc_dom(pairs, key);
    }
    assert forall|i: int| 0 <= i < pairs.len() implies assoc_map(pairs)[(
    #[trigger] pairs[i]).0] == pairs[i].1 by {
        lemma_assoc_last(pairs, i);
    }
}

/// A pair put behind the others decides its key.
pub proof fn lemma_assoc_push<V>(pairs: Seq<(Seq<char>, V)>, key: Seq<char>, value: V)
    ensures
        assoc_map(pairs.push((key, value))) == assoc_map(pairs).insert(key, value),
{
    assert(pairs.push((key, value)).drop_last() =~= pairs);
}

/// Replacing the value of a pair replaces the value of its key.
pub proof fn lemma_assoc_update<V>(pairs: Seq<(Seq<char>, V)>, i: int, value: V)
    requires
        distinct_keys(pairs),
        0 <= i < pairs.len(),
    ensures
        distinct_keys(pairs.update(i, (pairs[i].0, value))),
        assoc_map(pairs.update(i, (pairs[i].0, value))) == assoc_map(pairs).insert(
            pairs[i].0,
            value,
        ),
{
    let updated = pairs.update(i, (pairs[i].0, value));
    assert forall|k: int, l: int| 0 <= k < l < updated.len() implies (#[trigger] updated[k]).0 != (
    #[trigger] updated[l]).0 by {
        assert(pairs[k].0 != pairs[l].0);
    }
    lemma_assoc_distinct(pairs);
    lemma_assoc_distinct(updated);
    let before = assoc_map(pairs).insert(pairs[i].0, value);
    let after = assoc_map(updated);
    assert forall|key: Seq<char>| after.contains_key(key) <==> before.contains_key(key) by {
        if after.contains_key(key) {
            let k = choose|k: int| 0 <= k < updated.len() && (#[trigger] updated[k]).0 == key;
            assert(pairs[k].0 == key);
        }
        if assoc_map(pairs).contains_key(key) {
            let k = choose|k: int| 0 <= k < pairs.len() && (#[trigger] pairs[k]).0 == key;
            assert(updated[k].0 == key);
        }
        assert(updated[i].0 == pairs[i].0);
    }
    assert forall|key: Seq<char>| after.contains_key(key) implies after[key] == before[key] by {
        let k = choose|k: int| 0 <= k < updated.len() && (#[trigger] updated[k]).0 == key;
        assert(after[updated[k].0] == updated[k].1);
        assert(assoc_map(pairs)[pairs[k].0] == pairs[k].1);
        assert(pairs[k].0 == key);
        if k != i {
            assert(pairs[i].0 != pairs[k].0) by {
                if i < k {
                    assert(pairs[i].0 != pairs[k].0);
                } else {
                    assert(pairs[k].0 != pairs[i].0);
                }
            }
        }
    }
    assert(after =~= before);
}

/// Taking a pair out takes its key out.
pub proof fn lemma_assoc_remove<V>(pairs: Seq<(Seq<char>, V)>, i: int)
    requires
        distinct_keys(pairs),
        0 <= i < pairs.len(),
    ensures
        distinct_keys(pairs.remove(i)),
        assoc_map(pairs.remove(i)) == assoc_map(pairs).remove(pairs[i].0),
{
    let removed = pairs.remove(i);
    assert forall|k: int, l: int| 0 <= k < l < removed.len() implies (#[trigger] removed[k]).0 != (
    #[trigger] removed[l]).0 by {
        let k2 = if k < i { k } else { k + 1 };
        let l2 = if l < i { l } else { l + 1 };
        assert(pairs[k2].0 != pairs[l2].0);
    }
    lemma_assoc_distinct(pairs);
    lemma_assoc_distinct(removed);
    let before = assoc_map(pairs).remove(pairs[i].0);
    let after = assoc_map(removed);
    assert forall|key: Seq<char>| after.contains_key(key) <==> before.contains_key(key) by {
        if after.contains_key(key) {
            let k = choose|k: int| 0 <= k < removed.len() && (#[trigger] removed[k]).0 == key;
            let k2 = if k < i { k } else { k + 1 };
            assert(pairs[k2].0 == key);
            assert(pairs[i].0 != key) by {
                if i < k2 {
                    assert(pairs[i].0 != pairs[k2].0);
                } else {
                    assert(pairs[k2].0 != pairs[i].0);
                }
            }
        }
        if before.contains_key(key) {
            let k = choose|k: int| 0 <= k < pairs.len() && (#[trigger] pairs[k]).0 == key;
            let k2 = if k < i { k } else { k - 1 };
            assert(removed[k2].0 == key);
        }
    }
    assert forall|key: Seq<char>| after.contains_key(key) implies after[key] == before[key] by {
        let k = choose|k: int| 0 <= k < removed.len() && (#[trigger] removed[k]).0 == key;
        let k2 = if k < i { k } else { k + 1 };
        assert(after[removed[k].0] == removed[k].1);
        assert(assoc_map(pairs)[pairs[k2].0] == pairs[k2].1);
        assert(pairs[k2] == removed[k]);
    }
    assert(after =~= before);
}

} // verus!
