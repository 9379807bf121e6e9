//! A small map keyed by strings, kept as a list of entries without
//! repeated keys.
use vstd::prelude::*;
use crate::text::str_eq;

verus! {

/// Entries of a map from strings to values; no key occurs twice.
pub struct StringMap<V> {
    entries: Vec<(String, V)>,
}

impl<V: View> View for StringMap<V> {
    type V = Map<Seq<char>, V::V>;

    closed spec fn view(&self) -> Map<Seq<char>, V::V> {
        Map::new(
            |k: Seq<char>| self.has(k),
            |k: Seq<char>| self.entries@[self.index_of(k)].1@,
        )
    }
}

impl<V: View> StringMap<V> {
    /// The entries, in the order in which keys were first inserted.
    pub closed spec fn entries(&self) -> Seq<(String, V)> {
        self.entries@
    }

    /// The keys, in insertion order.
    pub closed spec fn keys(&self) -> Seq<Seq<char>> {
        self.entries@.map_values(|e: (String, V)| e.0@)
    }

    /// The keys are distinct and are exactly the keys of the map.
    pub proof fn lemma_keys(&self)
        requires
            self.wf(),
        ensures
            self.keys().no_duplicates(),
            self.keys().to_set() == self@.dom(),
            self.keys().len() == self@.dom().len(),
            self.keys().len() == self.entries().len(),
            self@.dom().finite(),
    {
        self.lemma_len();
    }

    pub closed spec fn has(&self, k: Seq<char>) -> bool {
        exists|i: int| 0 <= i < self.entries@.len() && self.entries@[i].0@ == k
    }

    pub closed spec fn index_of(&self, k: Seq<char>) -> int {
        choose|i: int| 0 <= i < self.entries@.len() && self.entries@[i].0@ == k
    }

    /// No key occurs in two entries.
    pub closed spec fn wf(&self) -> bool {
        forall|i: int, j: int|
            0 <= i < self.entries@.len() && 0 <= j < self.entries@.len() && i != j
                ==> self.entries@[i].0@ != self.entries@[j].0@
    }

    proof fn lemma_entry(&self, i: int)
        requires
            self.wf(),
            0 <= i < self.entries@.len(),
        ensures
            self@.contains_key(self.entries@[i].0@),
            self@[self.entries@[i].0@] == self.entries@[i].1@,
    {
        let k = self.entries@[i].0@;
        assert(self.has(k));
        let j = self.index_of(k);
        assert(i == j);
    }

    /// The empty map.
    pub fn new() -> (m: Self)
        ensures
            m.wf(),
            m@ == Map::<Seq<char>, V::V>::empty(),
    {
        let m = StringMap { entries: Vec::new() };
        assert(m@ =~= Map::<Seq<char>, V::V>::empty());
        m
    }

    /// Number of keys.
    pub fn len(&self) -> (n: usize)
        requires
            self.wf(),
        ensures
            n == self@.dom().len(),
            n == self.entries().len(),
            n == self.keys().len(),
    {
        proof { self.lemma_len(); }
        self.entries.len()
    }

    proof fn lemma_len(&self)
        requires
            self.wf(),
        ensures
            self@.dom().len() == self.entries@.len(),
            self@.dom().finite(),
            self.keys().no_duplicates(),
            self.keys().to_set() == self@.dom(),
    {
        let n = self.entries@.len();
        let keys = self.entries@.map_values(|e: (String, V)| e.0@);
        assert(self@.dom() =~= keys.to_set()) by {
            assert forall|k: Seq<char>| self@.dom().contains(k) implies keys.to_set().contains(k) by {
                let i = self.index_of(k);
                assert(keys[i] == k);
            }
            assert forall|k: Seq<char>| keys.to_set().contains(k) implies self@.dom().contains(k) by {
                let i = choose|i: int| 0 <= i < keys.len() && keys[i] == k;
                assert(self.entries@[i].0@ == k);
            }
        }
        assert(keys.no_duplicates()) by {
            assert forall|i: int, j: int| 0 <= i < keys.len() && 0 <= j < keys.len() && i != j implies keys[i] != keys[j] by {
                assert(self.entries@[i].0@ != self.entries@[j].0@);
            }
        }
        keys.unique_seq_to_set();
    }

    /// Position of `k` among the entries.
    fn find(&self, k: &str) -> (r: Option<usize>)
        requires
            self.wf(),
        ensures
            r matches Some(i) ==> i < self.entries@.len() && self.entries@[i as int].0@ == k@,
            r is None ==> !self@.contains_key(k@),
    {
        let mut i: usize = 0;
        while i < self.entries.len()
            invariant
                i <= self.entries@.len(),
                forall|j: int| 0 <= j < i ==> self.entries@[j].0@ != k@,
            decreases self.entries@.len() - i,
        {
            if str_eq(self.entries[i].0.as_str(), k) {
                return Some(i);
            }
            i = i + 1;
        }
        None
    }

    /// The value stored under `k`.
    pub fn get(&self, k: &str) -> (r: Option<&V>)
        requires
            self.wf(),
        ensures
            r matches Some(v) ==> self@.contains_key(k@) && v@ == self@[k@],
            r is None ==> !self@.contains_key(k@),
    {
        match self.find(k) {
            Some(i) => {
                proof { self.lemma_entry(i as int); }
                Some(&self.entries[i].1)
            },
            None => None,
        }
    }

    /// Stores `v` under `k`, replacing what was there.
    pub fn insert(&mut self, k: String, v: V)
        requires
            old(self).wf(),
        ensures
            final(self).wf(),
            final(self)@ == old(self)@.insert(k@, v@),
            old(self)@.contains_key(k@) ==> final(self).keys() == old(self).keys(),
            !old(self)@.contains_key(k@) ==> final(self).keys() == old(self).keys().push(k@),
    {
        let ghost old_self = *self;
        match self.find(k.as_str()) {
            Some(i) => {
                self.entries.set(i, (k, v));
                proof {
                    let key = self.entries@[i as int].0@;
                    assert forall|a: int, b: int|
                        0 <= a < self.entries@.len() && 0 <= b < self.entries@.len() && a != b
                        implies self.entries@[a].0@ != self.entries@[b].0@ by {
                        if a != i && b != i {
                            assert(old_self.entries@[a].0@ != old_self.entries@[b].0@);
                        } else if a == i {
                            assert(old_self.entries@[i as int].0@ != old_self.entries@[b].0@);
                        } else {
                            assert(old_self.entries@[a].0@ != old_self.entries@[i as int].0@);
                        }
                    }
                    assert forall|q: Seq<char>| #[trigger] self@.contains_key(q) == old_self@.insert(key, v@).contains_key(q) by {
                        if self.has(q) {
                            let j = choose|j: int| 0 <= j < self.entries@.len() && self.entries@[j].0@ == q;
                            if j != i {
                                assert(old_self.entries@[j].0@ == q);
                            }
                        }
                        if old_self.has(q) {
                            let j = choose|j: int| 0 <= j < old_self.entries@.len() && old_self.entries@[j].0@ == q;
                            if j != i {
                                assert(self.entries@[j].0@ == q);
                            } else {
                                assert(self.entries@[i as int].0@ == q);
                            }
                        }
                    }
                    assert forall|q: Seq<char>| self@.contains_key(q) implies #[trigger] self@[q] == old_self@.insert(key, v@)[q] by {
                        let j = self.index_of(q);
                        self.lemma_entry(j);
                        if j != i {
                            old_self.lemma_entry(j);
                        }
                    }
                    assert(self@ =~= old_self@.insert(key, v@));
                }
            },
            None => {
                self.entries.push((k, v));
                proof {
                    let n = old_self.entries@.len();
                    let key = self.entries@[n as int].0@;
                    assert forall|a: int, b: int|
                        0 <= a < self.entries@.len() && 0 <= b < self.entries@.len() && a != b
                        implies self.entries@[a].0@ != self.entries@[b].0@ by {
                        if a < n && b < n {
                            assert(old_self.entries@[a].0@ != old_self.entries@[b].0@);
                        } else if a == n {
                            if old_self.entries@[b].0@ == key {
                                old_self.lemma_entry(b);
                            }
                        } else {
                            if old_self.entries@[a].0@ == key {
                                old_self.lemma_entry(a);
                            }
                        }
                    }
                    assert forall|q: Seq<char>| #[trigger] self@.contains_key(q) == old_self@.insert(key, v@).contains_key(q) by {
                        if self.has(q) {
                            let j = choose|j: int| 0 <= j < self.entries@.len() && self.entries@[j].0@ == q;
                            if j != n {
                                assert(old_self.entries@[j].0@ == q);
                            }
                        }
                        if old_self.has(q) {
                            let j = choose|j: int| 0 <= j < old_self.entries@.len() && old_self.entries@[j].0@ == q;
                            assert(self.entries@[j].0@ == q);
                        }
                        if q == key {
                            assert(self.entries@[n as int].0@ == q);
                        }
                    }
                    assert forall|q: Seq<char>| self@.contains_key(q) implies #[trigger] self@[q] == old_self@.insert(key, v@)[q] by {
                        let j = self.index_of(q);
                        self.lemma_entry(j);
                        if j != n {
                            old_self.lemma_entry(j);
                        }
                    }
                    assert(self@ =~= old_self@.insert(key, v@));
                }
            },
        }
    }

    /// Drops the entry of `k`, if there is one.
    pub fn remove(&mut self, k: &str)
        requires
            old(self).wf(),
        ensures
            final(self).wf(),
            final(self)@ == old(self)@.remove(k@),
            old(self)@.contains_key(k@) ==> exists|i: int|
                0 <= i < old(self).keys().len() && old(self).keys()[i] == k@
                    && final(self).keys() == old(self).keys().remove(i),
            !old(self)@.contains_key(k@) ==> final(self).keys() == old(self).keys(),
    {
        let ghost old_self = *self;
        match self.find(k) {
            Some(i) => {
                self.entries.remove(i);
                proof {
                    let n = old_self.entries@.len();
                    assert forall|a: int, b: int|
                        0 <= a < self.entries@.len() && 0 <= b < self.entries@.len() && a != b
                        implies self.entries@[a].0@ != self.entries@[b].0@ by {
                        let a2 = if a < i { a } else { a + 1 };
                        let b2 = if b < i { b } else { b + 1 };
                        assert(old_self.entries@[a2].0@ != old_self.entries@[b2].0@);
                    }
                    assert forall|q: Seq<char>| #[trigger] self@.contains_key(q) == old_self@.remove(k@).contains_key(q) by {
                        if self.has(q) {
                            let j = choose|j: int| 0 <= j < self.entries@.len() && self.entries@[j].0@ == q;
                            let j2 = if j < i { j } else { j + 1 };
                            assert(old_self.entries@[j2].0@ == q);
                            assert(j2 != i);
                        }
                        if old_self.has(q) && q != k@ {
                            let j = choose|j: int| 0 <= j < old_self.entries@.len() && old_self.entries@[j].0@ == q;
                            assert(j != i);
                            let j2 = if j < i { j } else { j - 1 };
                            assert(self.entries@[j2].0@ == q);
                        }
                    }
                    assert forall|q: Seq<char>| self@.contains_key(q) implies #[trigger] self@[q] == old_self@.remove(k@)[q] by {
                        let j = self.index_of(q);
                        self.lemma_entry(j);
                        let j2 = if j < i { j } else { j + 1 };
                        old_self.lemma_entry(j2);
                    }
                    assert(self@ =~= old_self@.remove(k@));
                    assert(self.keys() =~= old_self.keys().remove(i as int));
                    assert(old_self.keys()[i as int] == k@);
                }
            },
            None => {
                assert(self@ =~= old_self@.remove(k@));
            },
        }
    }

    /// The value stored under the key at position `i`.
    pub proof fn lemma_value_at(&self, i: int)
        requires
            self.wf(),
            0 <= i < self.entries().len(),
        ensures
            self.keys()[i] == self.entries()[i].0@,
            self@.contains_key(self.keys()[i]),
            self@[self.keys()[i]] == self.entries()[i].1@,
    {
        self.lemma_entry(i);
    }

    /// The key of the entry at position `i`.
    pub fn key_at(&self, i: usize) -> (r: String)
        requires
            self.wf(),
            i < self.entries().len(),
        ensures
            r@ == self.keys()[i as int],
            r@ == self.entries()[i as int].0@,
    {
        self.entries[i].0.clone()
    }

    /// The value of the entry at position `i`, in insertion order.
    pub fn value_at(&self, i: usize) -> (r: &V)
        requires
            self.wf(),
            i < self.entries().len(),
        ensures
            *r == self.entries()[i as int].1,
            self.keys()[i as int] == self.entries()[i as int].0@,
            self@.contains_key(self.keys()[i as int]),
            r@ == self@[self.keys()[i as int]],
    {
        proof { self.lemma_entry(i as int); }
        &self.entries[i].1
    }
}

} // verus!
