//! A map keyed by text that remembers the order in which keys first arrived.

use vstd::prelude::*;

verus! {

/// A finite map from text keys to values. Each key occurs once; the keys keep
/// the order in which they were first inserted.
#[derive(Debug)]
pub struct StrMap<V> {
    entries: Vec<(String, V)>,
}

impl<V> StrMap<V> {
    /// The keys, in stored order.
    pub closed spec fn keys(&self) -> Seq<Seq<char>> {
        self.entries@.map_values(|e: (String, V)| e.0@)
    }

    /// The position of a key among the stored entries.
    closed spec fn position(&self, k: Seq<char>) -> int {
        choose|i: int| 0 <= i < self.entries@.len() && self.entries@[i].0@ == k
    }

    /// No key is stored twice.
    #[verifier::type_invariant]
    closed spec fn keys_distinct(&self) -> bool {
        self.keys().no_duplicates()
    }

    /// The keys form the domain of the map.
    pub proof fn lemma_dom(&self)
        ensures
            self@.dom() == self.keys().to_set(),
            self@.dom().finite(),
            forall|k: Seq<char>| self@.dom().contains(k) <==> self.keys().contains(k),
    {
        assert(self@.dom() =~= self.keys().to_set());
        self.keys().lemma_cardinality_of_set();
    }

    proof fn lemma_value_at(&self, i: int)
        requires
            self.keys().no_duplicates(),
            0 <= i < self.entries@.len(),
        ensures
            self@.dom().contains(self.entries@[i].0@),
            self@[self.entries@[i].0@] == self.entries@[i].1,
            self.keys()[i] == self.entries@[i].0@,
    {
        let k = self.entries@[i].0@;
        assert(self.keys()[i] == k);
        assert(self.keys().contains(k));
        let j = self.position(k);
        assert(self.keys()[j] == k);
    }

    /// An empty map.
    pub fn new() -> (m: Self)
        ensures
            m@ == Map::<Seq<char>, V>::empty(),
            m.keys() == Seq::<Seq<char>>::empty(),
    {
        let m = StrMap { entries: Vec::new() };
        assert(m@ =~= Map::<Seq<char>, V>::empty());
        assert(m.keys() =~= Seq::<Seq<char>>::empty());
        m
    }

    /// The number of keys.
    pub fn len(&self) -> (n: usize)
        ensures
            n == self.keys().len(),
            n == self@.len(),
            self.keys().no_duplicates(),
            self@.dom() == self.keys().to_set(),
    {
        proof {
            use_type_invariant(self);
            self.lemma_dom();
            self.keys().unique_seq_to_set();
        }
        self.entries.len()
    }

    fn find(&self, k: &String) -> (r: Option<usize>)
        ensures
            match r {
                Some(i) => i < self.keys().len() && self.keys()[i as int] == k@,
                None => !self.keys().contains(k@),
            },
    {
        let mut i: usize = 0;
        while i < self.entries.len()
            invariant
                i <= self.entries@.len(),
                forall|j: int| 0 <= j < i ==> self.keys()[j] != k@,
            decreases self.entries@.len() - i,
        {
            if self.entries[i].0 == *k {
                return Some(i);
            }
            i = i + 1;
        }
        None
    }

    /// Whether `k` is a key.
    pub fn contains_key(&self, k: &String) -> (b: bool)
        ensures
            b == self@.dom().contains(k@),
    {
        proof {
            self.lemma_dom();
        }
        self.find(k).is_some()
    }

    /// The value stored under `k`, if any.
    pub fn get(&self, k: &String) -> (r: Option<&V>)
        ensures
            match r {
                Some(v) => self@.dom().contains(k@) && *v == self@[k@],
                None => !self@.dom().contains(k@),
            },
    {
        proof {
            use_type_invariant(self);
            self.lemma_dom();
        }
        match self.find(k) {
            Some(i) => {
                proof {
                    self.lemma_value_at(i as int);
                }
                Some(&self.entries[i].1)
            },
            None => None,
        }
    }

    /// The key at position `i` of the stored order.
    pub fn key_at(&self, i: usize) -> (k: &String)
        requires
            i < self.keys().len(),
        ensures
            k@ == self.keys()[i as int],
    {
        &self.entries[i].0
    }

    /// The value of the key at position `i` of the stored order.
    pub fn value_at(&self, i: usize) -> (v: &V)
        requires
            i < self.keys().len(),
        ensures
            self@.dom().contains(self.keys()[i as int]),
            *v == self@[self.keys()[i as int]],
    {
        proof {
            use_type_invariant(self);
            self.lemma_value_at(i as int);
        }
        &self.entries[i].1
    }

    /// Sets the value of `k` to `v`. A new key goes after all others; an existing
    /// key keeps its place.
    pub fn insert(&mut self, k: String, v: V)
        ensures
            final(self)@ == old(self)@.insert(k@, v),
            final(self).keys() == if old(self).keys().contains(k@) {
                old(self).keys()
            } else {
                old(self).keys().push(k@)
            },
    {
        proof {
            use_type_invariant(&*self);
        }
        let ghost old_self = *self;
        let ghost old_map = self@;
        let ghost old_keys = self.keys();
        let ghost kv = k@;
        let idx = self.find(&k);
        let mut entries: Vec<(String, V)> = Vec::new();
        std::mem::swap(&mut entries, &mut self.entries);
        let ghost old_entries = entries@;
        match idx {
            Some(i) => {
                entries.set(i, (k, v));
                proof {
                    let new_keys = entries@.map_values(|e: (String, V)| e.0@);
                    assert(new_keys =~= old_keys);
                }
            },
            None => {
                entries.push((k, v));
                proof {
                    let new_keys = entries@.map_values(|e: (String, V)| e.0@);
                    assert(new_keys =~= old_keys.push(kv));
                }
            },
        }
        self.entries = entries;
        proof {
            assert(self.keys().no_duplicates());
            let m = self@;
            assert forall|q: Seq<char>| #[trigger] m.dom().contains(q) <==> old_map.insert(kv, v).dom().contains(q) by {
                self.lemma_dom();
                if q != kv {
                    if self.keys().contains(q) {
                        let j = choose|j: int| 0 <= j < self.keys().len() && self.keys()[j] == q;
                        assert(old_keys[j] == q);
                    }
                    if old_keys.contains(q) {
                        let j = choose|j: int| 0 <= j < old_keys.len() && old_keys[j] == q;
                        assert(self.keys()[j] == q);
                    }
                } else {
                    match idx {
                        Some(i) => { assert(self.keys()[i as int] == kv); },
                        None => { assert(self.keys()[old_keys.len() as int] == kv); },
                    }
                }
            }
            assert forall|q: Seq<char>| #[trigger] m.dom().contains(q) implies m[q] == old_map.insert(kv, v)[q] by {
                self.lemma_dom();
                let j = choose|j: int| 0 <= j < self.keys().len() && self.keys()[j] == q;
                self.lemma_value_at(j);
                if q != kv {
                    assert(old_entries[j].0@ == q);
                    assert(old_keys[j] == q);
                    assert(old_keys.contains(q));
                    old_self.lemma_value_at(j);
                }
            }
            assert(m =~= old_map.insert(kv, v));
        }
    }

    /// Removes every key.
    pub fn clear(&mut self)
        ensures
            final(self)@ == Map::<Seq<char>, V>::empty(),
            final(self).keys() == Seq::<Seq<char>>::empty(),
    {
        self.entries = Vec::new();
        assert(self@ =~= Map::<Seq<char>, V>::empty());
        assert(self.keys() =~= Seq::<Seq<char>>::empty());
    }

    /// The keys as owned text, in stored order.
    pub fn keys_vec(&self) -> (r: Vec<String>)
        ensures
            r@.map_values(|s: String| s@) == self.keys(),
    {
        let mut r: Vec<String> = Vec::new();
        let mut i: usize = 0;
        while i < self.entries.len()
            invariant
                i <= self.entries@.len(),
                r@.len() == i,
                forall|j: int| 0 <= j < i ==> #[trigger] r@[j]@ == self.keys()[j],
            decreases self.entries@.len() - i,
        {
            r.push(self.entries[i].0.clone());
            i = i + 1;
        }
        assert(r@.map_values(|s: String| s@) =~= self.keys());
        r
    }
}

impl<V: Copy> StrMap<V> {
    /// A copy of the map, with the same keys in the same order.
    pub fn copied(&self) -> (r: Self)
        ensures
            r@ == self@,
            r.keys() == self.keys(),
    {
        proof {
            use_type_invariant(self);
        }
        let mut entries: Vec<(String, V)> = Vec::new();
        let mut i: usize = 0;
        while i < self.entries.len()
            invariant
                i <= self.entries@.len(),
                entries@.len() == i,
                forall|j: int| 0 <= j < i ==> #[trigger] entries@[j] == self.entries@[j],
            decreases self.entries@.len() - i,
        {
            let e = &self.entries[i];
            entries.push((e.0.clone(), e.1));
            i = i + 1;
        }
        assert(entries@ =~= self.entries@);
        StrMap { entries }
    }
}

impl<V: Clone> Clone for StrMap<V> {
    /// A copy with the same keys in the same order, each value cloned.
    fn clone(&self) -> (r: Self)
        ensures
            r.keys() == self.keys(),
            forall|k: Seq<char>| #[trigger] self@.dom().contains(k) ==> cloned::<V>(self@[k], r@[k]),
    {
        proof {
            use_type_invariant(self);
        }
        let mut entries: Vec<(String, V)> = Vec::new();
        let mut i: usize = 0;
        while i < self.entries.len()
            invariant
                i <= self.entries@.len(),
                entries@.len() == i,
                forall|j: int| 0 <= j < i ==> (#[trigger] entries@[j]).0 == self.entries@[j].0,
                forall|j: int| 0 <= j < i ==> cloned::<V>(self.entries@[j].1, (#[trigger] entries@[j]).1),
            decreases self.entries@.len() - i,
        {
            let e = &self.entries[i];
            entries.push((e.0.clone(), e.1.clone()));
            i = i + 1;
        }
        assert(entries@.map_values(|e: (String, V)| e.0@) =~= self.keys());
        let r = StrMap { entries };
        proof {
            self.lemma_dom();
            r.lemma_dom();
            assert forall|k: Seq<char>| #[trigger] self@.dom().contains(k) implies cloned::<V>(self@[k], r@[k]) by {
                let j = choose|j: int| 0 <= j < self.keys().len() && self.keys()[j] == k;
                self.lemma_value_at(j);
                r.lemma_value_at(j);
            }
        }
        r
    }
}

impl<V> View for StrMap<V> {
    type V = Map<Seq<char>, V>;

    closed spec fn view(&self) -> Map<Seq<char>, V> {
        Map::new(
            |k: Seq<char>| self.keys().contains(k),
            |k: Seq<char>| self.entries@[self.position(k)].1,
        )
    }
}

} // verus!
