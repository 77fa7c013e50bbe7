//! A small map keyed by strings, kept as a vector of entries with distinct
//! keys in insertion order. Its model is a `Map` from the key's characters to
//! the stored value.

use vstd::prelude::*;
use vstd::string::StringExecFns;

verus! {

broadcast use vstd::std_specs::vec::group_vec_axioms;

/// Is `k` the key of some entry?
pub open spec fn has_key<V>(e: Seq<(String, V)>, k: Seq<char>) -> bool {
    exists|i: int| 0 <= i < e.len() && (#[trigger] e[i]).0@ == k
}

/// The position of the entry with key `k`.
pub open spec fn key_index<V>(e: Seq<(String, V)>, k: Seq<char>) -> int {
    choose|i: int| 0 <= i < e.len() && (#[trigger] e[i]).0@ == k
}

/// No two entries share a key.
pub open spec fn keys_distinct<V>(e: Seq<(String, V)>) -> bool {
    forall|i: int, j: int|
        0 <= i < e.len() && 0 <= j < e.len() && i != j ==> (#[trigger] e[i]).0@ != (#[trigger] e[j]).0@
}

/// The map that a sequence of entries stands for.
pub open spec fn entries_map<V>(e: Seq<(String, V)>) -> Map<Seq<char>, V> {
    Map::new(|k: Seq<char>| has_key(e, k), |k: Seq<char>| e[key_index(e, k)].1)
}

/// With distinct keys, each entry is what the map holds for its key.
pub proof fn lemma_entry_in_map<V>(e: Seq<(String, V)>, i: int)
    requires
        keys_distinct(e),
        0 <= i < e.len(),
    ensures
        entries_map(e).contains_key(e[i].0@),
        entries_map(e)[e[i].0@] == e[i].1,
        key_index(e, e[i].0@) == i,
{
    assert(has_key(e, e[i].0@));
    let j = key_index(e, e[i].0@);
    assert(e[j].0@ == e[i].0@);
}

/// A string-keyed map with distinct keys in insertion order.
pub struct StrMap<V> {
    pub entries: Vec<(String, V)>,
}

impl<V> StrMap<V> {
    pub open spec fn wf(&self) -> bool {
        keys_distinct(self.entries@)
    }

    pub open spec fn map(&self) -> Map<Seq<char>, V> {
        entries_map(self.entries@)
    }

    pub fn new() -> (r: Self)
        ensures
            r.wf(),
            r.entries@.len() == 0,
            r.map() == Map::<Seq<char>, V>::empty(),
    {
        let r = StrMap { entries: Vec::new() };
        assert(r.map() =~= Map::<Seq<char>, V>::empty());
        r
    }

    pub fn len(&self) -> (r: usize)
        requires
            self.wf(),
        ensures
            r == self.entries@.len(),
            r == self.map().dom().len(),
    {
        proof {
            self.lemma_len();
        }
        self.entries.len()
    }

    /// The number of keys equals the number of entries.
    pub proof fn lemma_len(&self)
        requires
            self.wf(),
        ensures
            self.map().dom().finite(),
            self.map().dom().len() == self.entries@.len(),
        decreases self.entries@.len(),
    {
        let e = self.entries@;
        let keys = Seq::new(e.len(), |i: int| e[i].0@);
        assert(keys.no_duplicates()) by {
            assert forall|i: int, j: int| 0 <= i < keys.len() && 0 <= j < keys.len() && i != j
                implies keys[i] != keys[j] by {
                assert(e[i].0@ != e[j].0@);
            }
        }
        assert(self.map().dom() =~= keys.to_set()) by {
            assert forall|k: Seq<char>| self.map().dom().contains(k) implies keys.to_set().contains(k) by {
                let i = key_index(e, k);
                assert(keys[i] == k);
            }
            assert forall|k: Seq<char>| keys.to_set().contains(k) implies self.map().dom().contains(k) by {
                let i = choose|i: int| 0 <= i < keys.len() && keys[i] == k;
                assert(e[i].0@ == k);
            }
        }
        keys.unique_seq_to_set();
    }

    /// The position of `k`, if present.
    pub fn find(&self, k: &str) -> (r: Option<usize>)
        requires
            self.wf(),
        ensures
            r is None <==> !self.map().contains_key(k@),
            r matches Some(i) ==> i < self.entries@.len() && self.entries@[i as int].0@ == k@,
    {
        let key = String::from_str(k);
        let mut i: usize = 0;
        while i < self.entries.len()
            invariant
                i <= self.entries@.len(),
                key@ == k@,
                self.wf(),
                forall|j: int| 0 <= j < i ==> (#[trigger] self.entries@[j]).0@ != k@,
            decreases self.entries.len() - i,
        {
            if self.entries[i].0 == key {
                proof {
                    lemma_entry_in_map(self.entries@, i as int);
                }
                return Some(i);
            }
            i = i + 1;
        }
        None
    }

    pub fn get(&self, k: &str) -> (r: Option<&V>)
        requires
            self.wf(),
        ensures
            r is None <==> !self.map().contains_key(k@),
            r matches Some(v) ==> *v == self.map()[k@],
    {
        match self.find(k) {
            Some(i) => {
                proof {
                    lemma_entry_in_map(self.entries@, i as int);
                }
                Some(&self.entries[i].1)
            },
            None => None,
        }
    }

    /// Set the value for `k`, keeping the position of an existing entry.
    pub fn insert(&mut self, k: &str, v: V)
        requires
            old(self).wf(),
        ensures
            final(self).wf(),
            final(self).map() == old(self).map().insert(k@, v),
            old(self).map().contains_key(k@) ==> final(self).entries@.len() == old(self).entries@.len(),
            !old(self).map().contains_key(k@) ==> final(self).entries@.len() == old(self).entries@.len() + 1,
    {
        let ghost old_e = self.entries@;
        match self.find(k) {
            Some(i) => {
                let key = String::from_str(k);
                self.entries.set(i, (key, v));
                proof {
                    let e = self.entries@;
                    assert(e == old_e.update(i as int, (e[i as int].0, v)));
                    assert(keys_distinct(e)) by {
                        assert forall|a: int, b: int|
                            0 <= a < e.len() && 0 <= b < e.len() && a != b implies (#[trigger] e[a]).0@
                            != (#[trigger] e[b]).0@ by {
                            assert(old_e[a].0@ != old_e[b].0@);
                        }
                    }
                    assert forall|kk: Seq<char>| #[trigger] has_key(e, kk) == has_key(old_e, kk) by {
                        if has_key(old_e, kk) {
                            let j = key_index(old_e, kk);
                            assert(e[j].0@ == kk);
                        }
                        if has_key(e, kk) {
                            let j = key_index(e, kk);
                            assert(old_e[j].0@ == kk);
                        }
                    }
                    assert forall|kk: Seq<char>| has_key(e, kk) implies #[trigger] entries_map(e)[kk]
                        == old(self).map().insert(k@, v)[kk] by {
                        let j = key_index(old_e, kk);
                        lemma_entry_in_map(old_e, j);
                        lemma_entry_in_map(e, j);
                    }
                    assert(entries_map(e) =~= old(self).map().insert(k@, v));
                }
            },
            None => {
                let key = String::from_str(k);
                self.entries.push((key, v));
                proof {
                    let e = self.entries@;
                    let n = old_e.len() as int;
                    assert(keys_distinct(e)) by {
                        assert forall|a: int, b: int|
                            0 <= a < e.len() && 0 <= b < e.len() && a != b implies (#[trigger] e[a]).0@
                            != (#[trigger] e[b]).0@ by {
                            if a < n && b < n {
                                assert(old_e[a].0@ != old_e[b].0@);
                            } else if a == n {
                                assert(!has_key(old_e, k@));
                                assert(old_e[b].0@ != k@);
                            } else {
                                assert(!has_key(old_e, k@));
                                assert(old_e[a].0@ != k@);
                            }
                        }
                    }
                    assert forall|kk: Seq<char>| #[trigger] has_key(e, kk) == (has_key(old_e, kk) || kk == k@) by {
                        if has_key(old_e, kk) {
                            let j = key_index(old_e, kk);
                            assert(e[j].0@ == kk);
                        }
                        if kk == k@ {
                            assert(e[n].0@ == kk);
                        }
                        if has_key(e, kk) {
                            let j = key_index(e, kk);
                            if j < n {
                                assert(old_e[j].0@ == kk);
                            }
                        }
                    }
                    assert forall|kk: Seq<char>| has_key(e, kk) implies #[trigger] entries_map(e)[kk]
                        == old(self).map().insert(k@, v)[kk] by {
                        if kk == k@ {
                            lemma_entry_in_map(e, n);
                        } else {
                            let j = key_index(old_e, kk);
                            lemma_entry_in_map(old_e, j);
                            lemma_entry_in_map(e, j);
                        }
                    }
                    assert(entries_map(e) =~= old(self).map().insert(k@, v));
                }
            },
        }
    }

    /// Remove the entry at position `i`.
    pub fn remove_at(&mut self, i: usize) -> (r: (String, V))
        requires
            old(self).wf(),
            i < old(self).entries@.len(),
        ensures
            final(self).wf(),
            r == old(self).entries@[i as int],
            final(self).entries@ == old(self).entries@.remove(i as int),
            final(self).map() == old(self).map().remove(r.0@),
    {
        let ghost old_e = self.entries@;
        let r = self.entries.remove(i);
        proof {
            let e = self.entries@;
            let k = r.0@;
            assert forall|a: int| 0 <= a < e.len() implies #[trigger] e[a] == old_e[if a < i {
                a
            } else {
                a + 1
            }] by {}
            assert(keys_distinct(e)) by {
                assert forall|a: int, b: int|
                    0 <= a < e.len() && 0 <= b < e.len() && a != b implies (#[trigger] e[a]).0@
                    != (#[trigger] e[b]).0@ by {
                    let oa = if a < i { a } else { a + 1 };
                    let ob = if b < i { b } else { b + 1 };
                    assert(old_e[oa].0@ != old_e[ob].0@);
                }
            }
            assert forall|kk: Seq<char>| #[trigger] has_key(e, kk) == (has_key(old_e, kk) && kk != k) by {
                if has_key(old_e, kk) && kk != k {
                    let j = key_index(old_e, kk);
                    assert(j != i);
                    let nj = if j < i { j } else { j - 1 };
                    assert(e[nj].0@ == kk);
                }
                if has_key(e, kk) {
                    let j = key_index(e, kk);
                    let oj = if j < i { j } else { j + 1 };
                    assert(old_e[oj].0@ == kk);
                    assert(oj != i);
                    assert(old_e[i as int].0@ != old_e[oj].0@);
                }
            }
            assert forall|kk: Seq<char>| has_key(e, kk) implies #[trigger] entries_map(e)[kk]
                == old(self).map().remove(k)[kk] by {
                let j = key_index(e, kk);
                let oj = if j < i { j } else { j + 1 };
                lemma_entry_in_map(e, j);
                lemma_entry_in_map(old_e, oj);
            }
            assert(entries_map(e) =~= old(self).map().remove(k));
        }
        r
    }
}

} // verus!
