//! A map keyed by level numbers, kept in ascending order of level.

use vstd::prelude::*;

verus! {

/// A finite map from levels to values whose levels are stored in strictly
/// ascending order.
#[derive(Debug)]
pub struct LevelMap<V> {
    entries: Vec<(u32, V)>,
}

impl<V> LevelMap<V> {
    /// The levels, in ascending order.
    pub closed spec fn levels(&self) -> Seq<u32> {
        self.entries@.map_values(|e: (u32, V)| e.0)
    }

    closed spec fn position(&self, k: u32) -> int {
        choose|i: int| 0 <= i < self.entries@.len() && self.entries@[i].0 == k
    }

    /// The levels are strictly ascending.
    #[verifier::type_invariant]
    closed spec fn ascending(&self) -> bool {
        forall|i: int, j: int| 0 <= i < j < self.entries@.len() ==> self.entries@[i].0 < self.entries@[j].0
    }

    /// The levels form the domain of the map.
    pub proof fn lemma_dom(&self)
        ensures
            self@.dom() == self.levels().to_set(),
            self@.dom().finite(),
            forall|k: u32| self@.dom().contains(k) <==> self.levels().contains(k),
    {
        assert(self@.dom() =~= self.levels().to_set());
        self.levels().lemma_cardinality_of_set();
    }

    proof fn lemma_value_at(&self, i: int)
        requires
            self.ascending(),
            0 <= i < self.entries@.len(),
        ensures
            self@.dom().contains(self.entries@[i].0),
            self@[self.entries@[i].0] == self.entries@[i].1,
            self.levels()[i] == self.entries@[i].0,
    {
        let k = self.entries@[i].0;
        assert(self.levels()[i] == k);
        assert(self.levels().contains(k));
        let j = self.position(k);
        assert(self.entries@[j].0 == k);
    }

    /// An empty map.
    pub fn new() -> (m: Self)
        ensures
            m@ == Map::<u32, V>::empty(),
            m.levels() == Seq::<u32>::empty(),
    {
        let m = LevelMap { entries: Vec::new() };
        assert(m@ =~= Map::<u32, V>::empty());
        assert(m.levels() =~= Seq::<u32>::empty());
        m
    }

    /// The smallest position whose level is at least `k`, or the length.
    fn lower_bound(&self, k: u32) -> (r: usize)
        ensures
            r <= self.levels().len(),
            forall|j: int| 0 <= j < r ==> self.levels()[j] < k,
            r < self.levels().len() ==> self.levels()[r as int] >= k,
    {
        let mut i: usize = 0;
        while i < self.entries.len()
            invariant
                i <= self.entries@.len(),
                forall|j: int| 0 <= j < i ==> self.levels()[j] < k,
            decreases self.entries@.len() - i,
        {
            if self.entries[i].0 >= k {
                return i;
            }
            i = i + 1;
        }
        i
    }

    /// The value stored at `level`, if any.
    pub fn get(&self, level: u32) -> (r: Option<&V>)
        ensures
            match r {
                Some(v) => self@.dom().contains(level) && *v == self@[level],
                None => !self@.dom().contains(level),
            },
    {
        proof {
            use_type_invariant(self);
            self.lemma_dom();
        }
        let i = self.lower_bound(level);
        if i < self.entries.len() && self.entries[i].0 == level {
            proof {
                self.lemma_value_at(i as int);
            }
            Some(&self.entries[i].1)
        } else {
            proof {
                if self.levels().contains(level) {
                    let j = choose|j: int| 0 <= j < self.levels().len() && self.levels()[j] == level;
                    if j < i {
                    } else {
                        assert(self.entries@[i as int].0 <= self.entries@[j].0);
                    }
                }
            }
            None
        }
    }

    /// Whether `level` is present.
    pub fn contains_key(&self, level: u32) -> (b: bool)
        ensures
            b == self@.dom().contains(level),
    {
        self.get(level).is_some()
    }

    /// Sets the value at `level` to `v`.
    pub fn insert(&mut self, level: u32, v: V)
        ensures
            final(self)@ == old(self)@.insert(level, v),
            final(self).levels().to_set() == old(self).levels().to_set().insert(level),
    {
        proof {
            use_type_invariant(&*self);
        }
        let ghost old_self = *self;
        let ghost old_map = self@;
        let ghost old_levels = self.levels();
        let i = self.lower_bound(level);
        let mut entries: Vec<(u32, V)> = Vec::new();
        std::mem::swap(&mut entries, &mut self.entries);
        let ghost old_entries = entries@;
        let found = i < entries.len() && entries[i].0 == level;
        if found {
            entries.set(i, (level, v));
        } else {
            entries.insert(i, (level, v));
        }
        proof {
            assert(old_entries == old_self.entries@);
            assert(old_self.ascending());
            assert(old_levels == old_self.levels());
            assert forall|j: int| 0 <= j < i implies old_entries[j].0 < level by {
                assert(old_levels[j] == old_entries[j].0);
            }
            if !found {
                if i < old_entries.len() {
                    assert(old_levels[i as int] == old_entries[i as int].0);
                }
                assert forall|a: int, b: int| 0 <= a < b < entries@.len() implies entries@[a].0 < entries@[b].0 by {
                    if b < i {
                        assert(entries@[a] == old_entries[a]);
                        assert(entries@[b] == old_entries[b]);
                    } else if a > i {
                        assert(entries@[a] == old_entries[a - 1]);
                        assert(entries@[b] == old_entries[b - 1]);
                    } else if a == i {
                        assert(entries@[b] == old_entries[b - 1]);
                        assert(old_entries[i as int].0 >= level);
                        assert(old_entries[i as int].0 <= old_entries[b - 1].0);
                    } else {
                        assert(entries@[a] == old_entries[a]);
                        if b == i {
                        } else {
                            assert(entries@[b] == old_entries[b - 1]);
                            assert(old_entries[a].0 < level);
                        }
                    }
                }
            }
        }
        self.entries = entries;
        proof {
            let lv = self.levels();
            let m = self@;
            self.lemma_dom();
            old_self.lemma_dom();
            if found {
                assert(lv =~= old_levels);
            } else {
                assert(lv =~= old_levels.insert(i as int, level));
            }
            assert forall|q: u32| #[trigger] m.dom().contains(q) <==> old_map.insert(level, v).dom().contains(q) by {
                if q != level {
                    if lv.contains(q) {
                        let j = choose|j: int| 0 <= j < lv.len() && lv[j] == q;
                        if found {
                            assert(old_levels[j] == q);
                        } else if j < i {
                            assert(old_levels[j] == q);
                        } else {
                            assert(old_levels[j - 1] == q);
                        }
                    }
                    if old_levels.contains(q) {
                        let j = choose|j: int| 0 <= j < old_levels.len() && old_levels[j] == q;
                        if found || j < i {
                            assert(lv[j] == q);
                        } else {
                            assert(lv[j + 1] == q);
                        }
                    }
                } else {
                    assert(lv[i as int] == level);
                }
            }
            assert forall|q: u32| #[trigger] m.dom().contains(q) implies m[q] == old_map.insert(level, v)[q] by {
                let j = choose|j: int| 0 <= j < lv.len() && lv[j] == q;
                self.lemma_value_at(j);
                if q != level {
                    if found || j < i {
                        assert(old_entries[j].0 == q);
                        old_self.lemma_value_at(j);
                    } else {
                        assert(old_entries[j - 1].0 == q);
                        old_self.lemma_value_at(j - 1);
                    }
                }
            }
            assert(m =~= old_map.insert(level, v));
            assert(lv.to_set() =~= old_levels.to_set().insert(level)) by {
                assert forall|q: u32| lv.to_set().contains(q) <==> old_levels.to_set().insert(level).contains(q) by {
                    assert(m.dom().contains(q) <==> old_map.insert(level, v).dom().contains(q));
                }
            }
        }
    }

    /// The levels, in ascending order.
    pub fn levels_vec(&self) -> (r: Vec<u32>)
        ensures
            r@ == self.levels(),
            forall|i: int, j: int| 0 <= i < j < r@.len() ==> r@[i] < r@[j],
            r@.to_set() == self@.dom(),
    {
        proof {
            use_type_invariant(self);
            self.lemma_dom();
        }
        let mut r: Vec<u32> = Vec::new();
        let mut i: usize = 0;
        while i < self.entries.len()
            invariant
                i <= self.entries@.len(),
                r@.len() == i,
                forall|j: int| 0 <= j < i ==> #[trigger] r@[j] == self.levels()[j],
            decreases self.entries@.len() - i,
        {
            r.push(self.entries[i].0);
            i = i + 1;
        }
        assert(r@ =~= self.levels());
        r
    }
}

impl<V: Clone> Clone for LevelMap<V> {
    /// A copy with the same levels, each value cloned.
    fn clone(&self) -> (r: Self)
        ensures
            r.levels() == self.levels(),
            forall|k: u32| #[trigger] self@.dom().contains(k) ==> cloned::<V>(self@[k], r@[k]),
    {
        proof {
            use_type_invariant(self);
        }
        let mut entries: Vec<(u32, V)> = Vec::new();
        let mut i: usize = 0;
        while i < self.entries.len()
            invariant
                i <= self.entries@.len(),
                entries@.len() == i,
                forall|j: int| 0 <= j < i ==> (#[trigger] entries@[j]).0 == self.entries@[j].0,
                forall|j: int| 0 <= j < i ==> cloned::<V>(self.entries@[j].1, (#[trigger] entries@[j]).1),
            decreases self.entries@.len() - i,
        {
            let e = &self.entries[i];
            entries.push((e.0, e.1.clone()));
            i = i + 1;
        }
        let r = LevelMap { entries };
        assert(r.levels() =~= self.levels());
        proof {
            self.lemma_dom();
            r.lemma_dom();
            assert forall|k: u32| #[trigger] self@.dom().contains(k) implies cloned::<V>(self@[k], r@[k]) by {
                let j = choose|j: int| 0 <= j < self.levels().len() && self.levels()[j] == k;
                self.lemma_value_at(j);
                r.lemma_value_at(j);
            }
        }
        r
    }
}

impl<V> View for LevelMap<V> {
    type V = Map<u32, V>;

    closed spec fn view(&self) -> Map<u32, V> {
        Map::new(|k: u32| self.levels().contains(k), |k: u32| self.entries@[self.position(k)].1)
    }
}

} // verus!
