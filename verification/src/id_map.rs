//! A small map keyed by the 128 bits of an id, kept as a vector of entries
//! with distinct keys in insertion order. Its model is a `Map` from the key
//! to the stored value.

use vstd::prelude::*;

verus! {

broadcast use vstd::std_specs::vec::group_vec_axioms;

/// Is `k` the key of some entry?
pub open spec fn has_id<V>(e: Seq<(u128, V)>, k: u128) -> bool {
    exists|i: int| 0 <= i < e.len() && (#[trigger] e[i]).0 == k
}

/// The position of the entry with key `k`.
pub open spec fn id_index<V>(e: Seq<(u128, V)>, k: u128) -> int {
    choose|i: int| 0 <= i < e.len() && (#[trigger] e[i]).0 == k
}

/// No two entries share a key.
pub open spec fn ids_distinct<V>(e: Seq<(u128, V)>) -> bool {
    forall|i: int, j: int|
        0 <= i < e.len() && 0 <= j < e.len() && i != j ==> (#[trigger] e[i]).0 != (#[trigger] e[j]).0
}

/// The map that a sequence of entries stands for.
pub open spec fn id_entries_map<V>(e: Seq<(u128, V)>) -> Map<u128, V> {
    Map::new(|k: u128| has_id(e, k), |k: u128| e[id_index(e, k)].1)
}

/// With distinct keys, each entry is what the map holds for its key.
pub proof fn lemma_id_entry_in_map<V>(e: Seq<(u128, V)>, i: int)
    requires
        ids_distinct(e),
        0 <= i < e.len(),
    ensures
        id_entries_map(e).contains_key(e[i].0),
        id_entries_map(e)[e[i].0] == e[i].1,
        id_index(e, e[i].0) == i,
{
    assert(has_id(e, e[i].0));
    let j = id_index(e, e[i].0);
    assert(e[j].0 == e[i].0);
}

/// An id-keyed map with distinct keys in insertion order.
pub struct IdMap<V> {
    pub entries: Vec<(u128, V)>,
}

impl<V> IdMap<V> {
    pub open spec fn wf(&self) -> bool {
        ids_distinct(self.entries@)
    }

    pub open spec fn map(&self) -> Map<u128, V> {
        id_entries_map(self.entries@)
    }

    pub fn new() -> (r: Self)
        ensures
            r.wf(),
            r.entries@.len() == 0,
            r.map() == Map::<u128, V>::empty(),
    {
        let r = IdMap { entries: Vec::new() };
        assert(r.map() =~= Map::<u128, V>::empty());
        r
    }

    pub fn len(&self) -> (r: usize)
        requires
            self.wf(),
        ensures
            r == self.entries@.len(),
            r == self.map().dom().len(),
    {
        proof {
            self.lemma_len();
        }
        self.entries.len()
    }

    /// The number of keys equals the number of entries.
    pub proof fn lemma_len(&self)
        requires
            self.wf(),
        ensures
            self.map().dom().finite(),
            self.map().dom().len() == self.entries@.len(),
        decreases self.entries@.len(),
    {
        let e = self.entries@;
        let keys = Seq::new(e.len(), |i: int| e[i].0);
        assert(keys.no_duplicates()) by {
            assert forall|i: int, j: int| 0 <= i < keys.len() && 0 <= j < keys.len() && i != j
                implies keys[i] != keys[j] by {
                assert(e[i].0 != e[j].0);
            }
        }
        assert(self.map().dom() =~= keys.to_set()) by {
            assert forall|k: u128| self.map().dom().contains(k) implies keys.to_set().contains(k) by {
                let i = id_index(e, k);
                assert(keys[i] == k);
            }
            assert forall|k: u128| keys.to_set().contains(k) implies self.map().dom().contains(k) by {
                let i = choose|i: int| 0 <= i < keys.len() && keys[i] == k;
                assert(e[i].0 == k);
            }
        }
        keys.unique_seq_to_set();
    }

    /// The position of `k`, if present.
    pub fn find(&self, k: u128) -> (r: Option<usize>)
        requires
            self.wf(),
        ensures
            r is None <==> !self.map().contains_key(k),
            r matches Some(i) ==> i < self.entries@.len() && self.entries@[i as int].0 == k,
    {
        let key = k;
        let mut i: usize = 0;
        while i < self.entries.len()
            invariant
                i <= self.entries@.len(),
                key == k,
                self.wf(),
                forall|j: int| 0 <= j < i ==> (#[trigger] self.entries@[j]).0 != k,
            decreases self.entries.len() - i,
        {
            if self.entries[i].0 == key {
                proof {
                    lemma_id_entry_in_map(self.entries@, i as int);
                }
                return Some(i);
            }
            i = i + 1;
        }
        None
    }

    pub fn get(&self, k: u128) -> (r: Option<&V>)
        requires
            self.wf(),
        ensures
            r is None <==> !self.map().contains_key(k),
            r matches Some(v) ==> *v == self.map()[k],
    {
        match self.find(k) {
            Some(i) => {
                proof {
                    lemma_id_entry_in_map(self.entries@, i as int);
                }
                Some(&self.entries[i].1)
            },
            None => None,
        }
    }

    /// Set the value for `k`, keeping the position of an existing entry.
    pub fn insert(&mut self, k: u128, v: V)
        requires
            old(self).wf(),
        ensures
            final(self).wf(),
            final(self).map() == old(self).map().insert(k, v),
            old(self).map().contains_key(k) ==> final(self).entries@.len() == old(self).entries@.len(),
            !old(self).map().contains_key(k) ==> final(self).entries@.len() == old(self).entries@.len() + 1,
    {
        let ghost old_e = self.entries@;
        match self.find(k) {
            Some(i) => {
                self.entries.set(i, (k, v));
                proof {
                    let e = self.entries@;
                    assert(e == old_e.update(i as int, (e[i as int].0, v)));
                    assert(ids_distinct(e)) by {
                        assert forall|a: int, b: int|
                            0 <= a < e.len() && 0 <= b < e.len() && a != b implies (#[trigger] e[a]).0
                            != (#[trigger] e[b]).0 by {
                            assert(old_e[a].0 != old_e[b].0);
                        }
                    }
                    assert forall|kk: u128| #[trigger] has_id(e, kk) == has_id(old_e, kk) by {
                        if has_id(old_e, kk) {
                            let j = id_index(old_e, kk);
                            assert(e[j].0 == kk);
                        }
                        if has_id(e, kk) {
                            let j = id_index(e, kk);
                            assert(old_e[j].0 == kk);
                        }
                    }
                    assert forall|kk: u128| has_id(e, kk) implies #[trigger] id_entries_map(e)[kk]
                        == old(self).map().insert(k, v)[kk] by {
                        let j = id_index(old_e, kk);
                        lemma_id_entry_in_map(old_e, j);
                        lemma_id_entry_in_map(e, j);
                    }
                    assert(id_entries_map(e) =~= old(self).map().insert(k, v));
                }
            },
            None => {
                self.entries.push((k, v));
                proof {
                    let e = self.entries@;
                    let n = old_e.len() as int;
                    assert(ids_distinct(e)) by {
                        assert forall|a: int, b: int|
                            0 <= a < e.len() && 0 <= b < e.len() && a != b implies (#[trigger] e[a]).0
                            != (#[trigger] e[b]).0 by {
                            if a < n && b < n {
                                assert(old_e[a].0 != old_e[b].0);
                            } else if a == n {
                                assert(!has_id(old_e, k));
                                assert(old_e[b].0 != k);
                            } else {
                                assert(!has_id(old_e, k));
                                assert(old_e[a].0 != k);
                            }
                        }
                    }
                    assert forall|kk: u128| #[trigger] has_id(e, kk) == (has_id(old_e, kk) || kk == k) by {
                        if has_id(old_e, kk) {
                            let j = id_index(old_e, kk);
                            assert(e[j].0 == kk);
                        }
                        if kk == k {
                            assert(e[n].0 == kk);
                        }
                        if has_id(e, kk) {
                            let j = id_index(e, kk);
                            if j < n {
                                assert(old_e[j].0 == kk);
                            }
                        }
                    }
                    assert forall|kk: u128| has_id(e, kk) implies #[trigger] id_entries_map(e)[kk]
                        == old(self).map().insert(k, v)[kk] by {
                        if kk == k {
                            lemma_id_entry_in_map(e, n);
                        } else {
                            let j = id_index(old_e, kk);
                            lemma_id_entry_in_map(old_e, j);
                            lemma_id_entry_in_map(e, j);
                        }
                    }
                    assert(id_entries_map(e) =~= old(self).map().insert(k, v));
                }
            },
        }
    }

    /// Remove the entry at position `i`.
    pub fn remove_at(&mut self, i: usize) -> (r: (u128, V))
        requires
            old(self).wf(),
            i < old(self).entries@.len(),
        ensures
            final(self).wf(),
            r == old(self).entries@[i as int],
            final(self).entries@ == old(self).entries@.remove(i as int),
            final(self).map() == old(self).map().remove(r.0),
    {
        let ghost old_e = self.entries@;
        let r = self.entries.remove(i);
        proof {
            let e = self.entries@;
            let k = r.0;
            assert forall|a: int| 0 <= a < e.len() implies #[trigger] e[a] == old_e[if a < i {
                a
            } else {
                a + 1
            }] by {}
            assert(ids_distinct(e)) by {
                assert forall|a: int, b: int|
                    0 <= a < e.len() && 0 <= b < e.len() && a != b implies (#[trigger] e[a]).0
                    != (#[trigger] e[b]).0 by {
                    let oa = if a < i { a } else { a + 1 };
                    let ob = if b < i { b } else { b + 1 };
                    assert(old_e[oa].0 != old_e[ob].0);
                }
            }
            assert forall|kk: u128| #[trigger] has_id(e, kk) == (has_id(old_e, kk) && kk != k) by {
                if has_id(old_e, kk) && kk != k {
                    let j = id_index(old_e, kk);
                    assert(j != i);
                    let nj = if j < i { j } else { j - 1 };
                    assert(e[nj].0 == kk);
                }
                if has_id(e, kk) {
                    let j = id_index(e, kk);
                    let oj = if j < i { j } else { j + 1 };
                    assert(old_e[oj].0 == kk);
                    assert(oj != i);
                    assert(old_e[i as int].0 != old_e[oj].0);
                }
            }
            assert forall|kk: u128| has_id(e, kk) implies #[trigger] id_entries_map(e)[kk]
                == old(self).map().remove(k)[kk] by {
                let j = id_index(e, kk);
                let oj = if j < i { j } else { j + 1 };
                lemma_id_entry_in_map(e, j);
                lemma_id_entry_in_map(old_e, oj);
            }
            assert(id_entries_map(e) =~= old(self).map().remove(k));
        }
        r
    }
}

} // verus!
