//! Maps keyed by strings.
use vstd::prelude::*;

use crate::assoc::{
    assoc_map, distinct_keys, lemma_assoc_dom, lemma_assoc_last, lemma_assoc_push,
    lemma_assoc_remove, lemma_assoc_update,
};

verus! {

/// A list of pairs, each member by its view.
pub open spec fn pair_views<V: View>(pairs: Seq<(String, V)>) -> Seq<(Seq<char>, V::V)> {
    Seq::new(pairs.len(), |i: int| (pairs[i].0@, pairs[i].1@))
}

/// The views of pairs are those of all of them, each in its place.
pub proof fn law_pair_views_are_complete<V: View>(pairs: Seq<(String, V)>)
    ensures
        pair_views(pairs).len() == pairs.len(),
        forall|i: int|
            0 <= i < pairs.len() ==> pair_views(pairs)[i].0 == (#[trigger] pairs[i]).0@
                && pair_views(pairs)[i].1 == pairs[i].1@,
{
}

/// The position of the last pair with a key.
pub fn last_position<V: View>(pairs: &Vec<(String, V)>, key: &String) -> (position: Option<usize>)
    ensures
        match position {
            Some(i) => i < pairs@.len() && pairs@[i as int].0@ == key@ && forall|j: int|
                i < j < pairs@.len() ==> (#[trigger] pairs@[j]).0@ != key@,
            None => forall|j: int| 0 <= j < pairs@.len() ==> (#[trigger] pairs@[j]).0@ != key@,
        },
{
    let mut i: usize = pairs.len();
    while i > 0
        invariant
            i <= pairs@.len(),
            forall|j: int| i <= j < pairs@.len() ==> (#[trigger] pairs@[j]).0@ != key@,
        decreases i,
    {
        i = i - 1;
        if pairs[i].0 == *key {
            return Some(i);
        }
    }
    None
}

/// A map from strings to values. Each key is held once, in the order of first insertion.
#[derive(Debug)]
pub struct StringMap<V: View> {
    pairs: Vec<(String, V)>,
}

impl<V: View> StringMap<V> {
    #[verifier::type_invariant]
    spec fn keys_are_distinct(self) -> bool {
        distinct_keys(pair_views(self.pairs@))
    }

    /// An empty map.
    pub fn new() -> (map: Self)
        ensures
            map@ == Map::<Seq<char>, V::V>::empty(),
    {
        StringMap { pairs: Vec::new() }
    }

    /// The pairs of the map, each key once.
    pub fn pairs(&self) -> (pairs: &Vec<(String, V)>)
        ensures
            distinct_keys(pair_views(pairs@)),
            assoc_map(pair_views(pairs@)) == self@,
    {
        proof {
            use_type_invariant(self);
        }
        &self.pairs
    }

    /// Whether the map holds a key.
    pub fn contains_key(&self, key: &String) -> (found: bool)
        ensures
            found == self@.contains_key(key@),
    {
        proof {
            lemma_assoc_dom(pair_views(self.pairs@), key@);
        }
        match last_position(&self.pairs, key) {
            Some(i) => {
                assert(pair_views(self.pairs@)[i as int].0 == key@);
                true
            },
            None => {
                assert forall|j: int| 0 <= j < pair_views(self.pairs@).len() implies (
                #[trigger] pair_views(self.pairs@)[j]).0 != key@ by {
                    assert(self.pairs@[j].0@ != key@);
                }
                false
            },
        }
    }

    /// The value of a key.
    pub fn get(&self, key: &String) -> (value: Option<&V>)
        ensures
            match value {
                Some(v) => self@.contains_key(key@) && v@ == self@[key@],
                None => !self@.contains_key(key@),
            },
    {
        proof {
            lemma_assoc_dom(pair_views(self.pairs@), key@);
        }
        let ghost views = pair_views(self.pairs@);
        match last_position(&self.pairs, key) {
            Some(i) => {
                proof {
                    assert forall|j: int| i < j < views.len() implies (#[trigger] views[j]).0
                        != views[i as int].0 by {
                        assert(self.pairs@[j].0@ != key@);
                    }
                    lemma_assoc_last(views, i as int);
                }
                Some(&self.pairs[i].1)
            },
            None => {
                assert forall|j: int| 0 <= j < views.len() implies (#[trigger] views[j]).0
                    != key@ by {
                    assert(self.pairs@[j].0@ != key@);
                }
                None
            },
        }
    }

    /// Gives a key a value, in place of the one it had.
    pub fn insert(&mut self, key: String, value: V)
        ensures
            final(self)@ == old(self)@.insert(key@, value@),
    {
        proof {
            use_type_invariant(&*self);
        }
        let ghost before = pair_views(self.pairs@);
        let mut pairs: Vec<(String, V)> = Vec::new();
        std::mem::swap(&mut pairs, &mut self.pairs);
        match last_position(&pairs, &key) {
            Some(i) => {
                let ghost views = before.update(i as int, (before[i as int].0, value@));
                proof {
                    lemma_assoc_update(before, i as int, value@);
                }
                pairs[i] = (key, value);
                assert(pair_views(pairs@) =~= views);
            },
            None => {
                proof {
                    lemma_assoc_push(before, key@, value@);
                    let views = before.push((key@, value@));
                    assert forall|k: int, l: int| 0 <= k < l < views.len() implies (
                    #[trigger] views[k]).0 != (#[trigger] views[l]).0 by {
                        assert(pairs@[k].0@ != key@);
                        if l < before.len() {
                            assert(before[k].0 != before[l].0);
                        }
                    }
                }
                let ghost views = before.push((key@, value@));
                pairs.push((key, value));
                assert(pair_views(pairs@) =~= views);
            },
        }
        self.pairs = pairs;
    }

    /// Takes a key out of the map; nothing happens where the map does not hold it.
    pub fn remove(&mut self, key: &String)
        ensures
            final(self)@ == old(self)@.remove(key@),
    {
        proof {
            use_type_invariant(&*self);
        }
        let ghost before = pair_views(self.pairs@);
        let mut pairs: Vec<(String, V)> = Vec::new();
        std::mem::swap(&mut pairs, &mut self.pairs);
        proof {
            lemma_assoc_dom(before, key@);
        }
        match last_position(&pairs, key) {
            Some(i) => {
                proof {
                    lemma_assoc_remove(before, i as int);
                }
                pairs.remove(i);
                assert(pair_views(pairs@) =~= before.remove(i as int));
            },
            None => {
                assert forall|j: int| 0 <= j < before.len() implies (#[trigger] before[j]).0
                    != key@ by {
                    assert(pairs@[j].0@ != key@);
                }
                assert(assoc_map(before).remove(key@) =~= assoc_map(before));
            },
        }
        self.pairs = pairs;
    }
}

impl<V: View> View for StringMap<V> {
    type V = Map<Seq<char>, V::V>;

    closed spec fn view(&self) -> Map<Seq<char>, V::V> {
        assoc_map(pair_views(self.pairs@))
    }
}

} // verus!
