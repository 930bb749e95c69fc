//! An insertion-ordered index from text keys to values, with distinct keys.

use vstd::prelude::*;

verus! {

/// The map that a sequence of pairs describes, later pairs overriding
/// earlier ones.
pub open spec fn map_of<V>(pairs: Seq<(Seq<char>, V)>) -> Map<Seq<char>, V>
    decreases pairs.len(),
{
    if pairs.len() == 0 {
        Map::empty()
    } else {
        map_of(pairs.drop_last()).insert(pairs.last().0, pairs.last().1)
    }
}

pub open spec fn keys_distinct<V>(pairs: Seq<(Seq<char>, V)>) -> bool {
    forall|i: int, j: int|
        0 <= i < pairs.len() && 0 <= j < pairs.len() && i != j ==> #[trigger] pairs[i].0
            != #[trigger] pairs[j].0
}

pub proof fn lemma_map_of_lookup<V>(pairs: Seq<(Seq<char>, V)>)
    requires
        keys_distinct(pairs),
    ensures
        map_of(pairs).dom().finite(),
        map_of(pairs).dom().len() == pairs.len(),
        forall|k: Seq<char>|
            #[trigger] map_of(pairs).contains_key(k) <==> exists|i: int|
                0 <= i < pairs.len() && #[trigger] pairs[i].0 == k,
        forall|i: int| 0 <= i < pairs.len() ==> #[trigger] map_of(pairs)[pairs[i].0] == pairs[i].1,
    decreases pairs.len(),
{
    if pairs.len() > 0 {
        let init = pairs.drop_last();
        assert(keys_distinct(init)) by {
            assert forall|i: int, j: int|
                0 <= i < init.len() && 0 <= j < init.len() && i != j implies #[trigger] init[i].0
                != #[trigger] init[j].0 by {
                assert(init[i] == pairs[i] && init[j] == pairs[j]);
            }
        }
        lemma_map_of_lookup(init);
        let last = pairs.last();
        assert(!map_of(init).contains_key(last.0)) by {
            if map_of(init).contains_key(last.0) {
                let i = choose|i: int| 0 <= i < init.len() && #[trigger] init[i].0 == last.0;
                assert(pairs[i].0 == pairs[pairs.len() - 1].0);
            }
        }
        assert forall|k: Seq<char>| #[trigger] map_of(pairs).contains_key(k) implies exists|i: int|
            0 <= i < pairs.len() && #[trigger] pairs[i].0 == k by {
            if k == last.0 {
                assert(pairs[pairs.len() - 1].0 == k);
            } else {
                let i = choose|i: int| 0 <= i < init.len() && #[trigger] init[i].0 == k;
                assert(pairs[i].0 == k);
            }
        }
        assert forall|k: Seq<char>|
            (exists|i: int| 0 <= i < pairs.len() && #[trigger] pairs[i].0 == k) implies #[trigger] map_of(
            pairs,
        ).contains_key(k) by {
            let i = choose|i: int| 0 <= i < pairs.len() && #[trigger] pairs[i].0 == k;
            if i < pairs.len() - 1 {
                assert(init[i].0 == k);
            }
        }
        assert forall|i: int| 0 <= i < pairs.len() implies #[trigger] map_of(pairs)[pairs[i].0]
            == pairs[i].1 by {
            if i < pairs.len() - 1 {
                assert(init[i] == pairs[i]);
                assert(pairs[i].0 != last.0);
            }
        }
    }
}

/// An index from keys to values. Keys are distinct; pairs keep the order in
/// which their keys were first inserted.
pub struct KeyIndex<V> {
    entries: Vec<(String, V)>,
}

impl<V: View> KeyIndex<V> {
    /// The pairs of the index, in order.
    pub closed spec fn pairs(&self) -> Seq<(Seq<char>, V::V)> {
        self.entries@.map_values(|e: (String, V)| (e.0@, e.1@))
    }

    /// The index as a map.
    pub open spec fn view(&self) -> Map<Seq<char>, V::V> {
        map_of(self.pairs())
    }

    pub open spec fn wf(&self) -> bool {
        keys_distinct(self.pairs())
    }

    pub proof fn lemma_view(&self)
        requires
            self.wf(),
        ensures
            self.view().dom().finite(),
            self.view().dom().len() == self.pairs().len(),
            forall|k: Seq<char>|
                #[trigger] self.view().contains_key(k) <==> exists|i: int|
                    0 <= i < self.pairs().len() && #[trigger] self.pairs()[i].0 == k,
            forall|i: int|
                0 <= i < self.pairs().len() ==> #[trigger] self.view()[self.pairs()[i].0]
                    == self.pairs()[i].1,
    {
        lemma_map_of_lookup(self.pairs());
    }

    pub fn new() -> (r: Self)
        ensures
            r.wf(),
            r.pairs() == Seq::<(Seq<char>, V::V)>::empty(),
            r.view() == Map::<Seq<char>, V::V>::empty(),
    {
        let r = KeyIndex { entries: Vec::new() };
        assert(r.pairs() =~= Seq::<(Seq<char>, V::V)>::empty());
        r
    }

    pub fn len(&self) -> (r: usize)
        requires
            self.wf(),
        ensures
            r == self.view().len(),
            r == self.pairs().len(),
    {
        proof {
            self.lemma_view();
        }
        self.entries.len()
    }

    /// The position of `key`, if it is in the index.
    fn find(&self, key: &String) -> (r: Option<usize>)
        requires
            self.wf(),
        ensures
            r matches Some(i) ==> i < self.pairs().len() && self.pairs()[i as int].0 == key@,
            r is None ==> !self.view().contains_key(key@),
    {
        proof {
            self.lemma_view();
        }
        let mut i: usize = 0;
        while i < self.entries.len()
            invariant
                self.wf(),
                i <= self.entries@.len(),
                forall|k: int| 0 <= k < i ==> #[trigger] self.pairs()[k].0 != key@,
            decreases self.entries@.len() - i,
        {
            proof {
                assert(self.pairs()[i as int].0 == self.entries@[i as int].0@);
            }
            if self.entries[i].0 == *key {
                return Some(i);
            }
            i = i + 1;
        }
        None
    }

    pub fn contains_key(&self, key: &String) -> (r: bool)
        requires
            self.wf(),
        ensures
            r == self.view().contains_key(key@),
    {
        proof {
            self.lemma_view();
        }
        self.find(key).is_some()
    }

    pub fn get(&self, key: &String) -> (r: Option<&V>)
        requires
            self.wf(),
        ensures
            match r {
                Some(v) => self.view().contains_key(key@) && self.view()[key@] == v@,
                None => !self.view().contains_key(key@),
            },
    {
        proof {
            self.lemma_view();
        }
        match self.find(key) {
            Some(i) => Some(&self.entries[i].1),
            None => None,
        }
    }

    /// The key and value at a position.
    pub fn entry(&self, i: usize) -> (r: (&String, &V))
        requires
            i < self.pairs().len(),
        ensures
            (r.0@, r.1@) == self.pairs()[i as int],
    {
        (&self.entries[i].0, &self.entries[i].1)
    }

    pub fn insert(&mut self, key: String, value: V)
        requires
            old(self).wf(),
        ensures
            final(self).wf(),
            final(self).view() == old(self).view().insert(key@, value@),
    {
        proof {
            self.lemma_view();
        }
        let ghost kv = key@;
        let ghost vv = value@;
        match self.find(&key) {
            Some(i) => {
                self.entries.set(i, (key, value));
                proof {
                    let old_pairs = old(self).pairs();
                    assert(self.pairs() =~= old_pairs.update(i as int, (kv, vv)));
                    assert(self.wf());
                    self.lemma_view();
                    assert(self.view() =~= old(self).view().insert(kv, vv)) by {
                        assert forall|k: Seq<char>| #[trigger] self.view().contains_key(k) implies old(
                            self,
                        ).view().insert(kv, vv).contains_key(k) by {
                            let j = choose|j: int|
                                0 <= j < self.pairs().len() && #[trigger] self.pairs()[j].0 == k;
                            if j != i {
                                assert(old_pairs[j].0 == k);
                            }
                        }
                        assert forall|k: Seq<char>|
                            #[trigger] old(self).view().insert(kv, vv).contains_key(k) implies self.view().contains_key(
                            k,
                        ) by {
                            if k != kv {
                                let j = choose|j: int|
                                    0 <= j < old_pairs.len() && #[trigger] old_pairs[j].0 == k;
                                assert(self.pairs()[j].0 == k);
                            } else {
                                assert(self.pairs()[i as int].0 == k);
                            }
                        }
                        assert forall|k: Seq<char>| #[trigger] self.view().contains_key(k) implies self.view()[k]
                            == old(self).view().insert(kv, vv)[k] by {
                            let j = choose|j: int|
                                0 <= j < self.pairs().len() && #[trigger] self.pairs()[j].0 == k;
                            if j != i {
                                assert(old_pairs[j] == self.pairs()[j]);
                            }
                        }
                    }
                }
            },
            None => {
                self.entries.push((key, value));
                proof {
                    let old_pairs = old(self).pairs();
                    assert(self.pairs() =~= old_pairs.push((kv, vv)));
                    assert(self.pairs().drop_last() =~= old_pairs);
                    assert(self.wf()) by {
                        assert forall|a: int, b: int|
                            0 <= a < self.pairs().len() && 0 <= b < self.pairs().len() && a != b implies #[trigger] self.pairs()[a].0
                            != #[trigger] self.pairs()[b].0 by {
                            if a == old_pairs.len() {
                                assert(old(self).view()[old_pairs[b].0] == old_pairs[b].1);
                            } else if b == old_pairs.len() {
                                assert(old(self).view()[old_pairs[a].0] == old_pairs[a].1);
                            }
                        }
                    }
                }
            },
        }
    }

    /// Removes `key`; tells whether it was there.
    pub fn remove(&mut self, key: &String) -> (r: bool)
        requires
            old(self).wf(),
        ensures
            final(self).wf(),
            r == old(self).view().contains_key(key@),
            final(self).view() == old(self).view().remove(key@),
    {
        proof {
            self.lemma_view();
        }
        match self.find(key) {
            Some(i) => {
                let ghost old_pairs = self.pairs();
                self.entries.remove(i);
                proof {
                    assert(self.pairs() =~= old_pairs.remove(i as int));
                    assert(self.wf()) by {
                        assert forall|a: int, b: int|
                            0 <= a < self.pairs().len() && 0 <= b < self.pairs().len() && a != b implies #[trigger] self.pairs()[a].0
                            != #[trigger] self.pairs()[b].0 by {
                            let a2 = if a < i { a } else { a + 1 };
                            let b2 = if b < i { b } else { b + 1 };
                            assert(self.pairs()[a] == old_pairs[a2]);
                            assert(self.pairs()[b] == old_pairs[b2]);
                        }
                    }
                    self.lemma_view();
                    let kv = key@;
                    assert(self.view() =~= old(self).view().remove(kv)) by {
                        assert forall|k: Seq<char>| #[trigger] self.view().contains_key(k) implies old(
                            self,
                        ).view().remove(kv).contains_key(k) && self.view()[k] == old(self).view()[k] by {
                            let j = choose|j: int|
                                0 <= j < self.pairs().len() && #[trigger] self.pairs()[j].0 == k;
                            let j2 = if j < i { j } else { j + 1 };
                            assert(self.pairs()[j] == old_pairs[j2]);
                            assert(j2 != i);
                        }
                        assert forall|k: Seq<char>|
                            #[trigger] old(self).view().remove(kv).contains_key(k) implies self.view().contains_key(
                            k,
                        ) by {
                            let j = choose|j: int|
                                0 <= j < old_pairs.len() && #[trigger] old_pairs[j].0 == k;
                            assert(j != i);
                            let j2 = if j < i { j } else { j - 1 };
                            assert(self.pairs()[j2] == old_pairs[j]);
                        }
                    }
                }
                true
            },
            None => {
                assert(old(self).view().remove(key@) =~= old(self).view());
                false
            },
        }
    }
}

} // verus!
