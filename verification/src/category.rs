//! Categories: objects keyed by id, and the morphisms between them.

use vstd::prelude::*;
use crate::model::{Object, Morphism, FieldValue, ZERO_BITS, texts};
use crate::strmap::StrMap;

verus! {

/// A category: a named collection of objects, keyed by id, and of morphisms.
#[derive(Debug, Clone)]
pub struct Category {
    pub name: String,
    pub objects: StrMap<Object>,
    pub morphisms: Vec<Morphism>,
}

/// The map after inserting each object under its id, in order: a later object
/// replaces an earlier one with the same id.
pub open spec fn insert_objects(m: Map<Seq<char>, Object>, objs: Seq<Object>) -> Map<Seq<char>, Object>
    decreases objs.len(),
{
    if objs.len() == 0 {
        m
    } else {
        insert_objects(m, objs.drop_last()).insert(objs.last().id@, objs.last())
    }
}

/// The counts that `stats` reports.
pub open spec fn stats_map(objects: nat, morphisms: nat) -> Map<Seq<char>, usize> {
    map!["objects"@ => objects as usize, "morphisms"@ => morphisms as usize]
}

/// The flat record of a morphism: its ends, type, strength and timestamp, the
/// timestamp 0.0 standing for a missing one.
pub open spec fn morphism_record(m: Morphism) -> Map<Seq<char>, FieldValue> {
    map![
        "source"@ => FieldValue::Text(m.source),
        "target"@ => FieldValue::Text(m.target),
        "type"@ => FieldValue::Text(m.morphism_type),
        "strength"@ => FieldValue::Number(m.strength),
        "timestamp"@ => FieldValue::Number(
            match m.timestamp {
                Some(t) => t,
                None => ZERO_BITS,
            },
        )
    ]
}

impl Category {
    /// An empty category with the given name.
    pub fn new(name: String) -> (r: Self)
        ensures
            r.name == name,
            r.objects@ == Map::<Seq<char>, Object>::empty(),
            r.objects.keys() == Seq::<Seq<char>>::empty(),
            r.morphisms@ == Seq::<Morphism>::empty(),
    {
        Category { name, objects: StrMap::new(), morphisms: Vec::new() }
    }

    /// Adds each object under its id, in order; an object replaces any earlier
    /// one with the same id.
    pub fn add_objects_batch(&mut self, objects: Vec<Object>)
        ensures
            final(self).objects@ == insert_objects(old(self).objects@, objects@),
            final(self).morphisms == old(self).morphisms,
            final(self).name == old(self).name,
    {
        let ghost start = self.objects@;
        let ghost all = objects@;
        for obj in it: objects
            invariant
                it.seq() == all,
                self.objects@ == insert_objects(start, all.take(it.index())),
                self.morphisms == old(self).morphisms,
                self.name == old(self).name,
        {
            let ghost idx = it.index();
            let key = obj.id.clone();
            self.objects.insert(key, obj);
            proof {
                assert(all.take(idx + 1).drop_last() =~= all.take(idx));
            }
        }
        proof {
            assert(all.take(all.len() as int) =~= all);
        }
    }

    /// Appends the morphisms, in order.
    pub fn add_morphisms_batch(&mut self, morphisms: Vec<Morphism>)
        ensures
            final(self).morphisms@ == old(self).morphisms@ + morphisms@,
            final(self).objects == old(self).objects,
            final(self).name == old(self).name,
    {
        let mut morphisms = morphisms;
        self.morphisms.append(&mut morphisms);
    }

    /// Removes every object and every morphism.
    pub fn clear(&mut self)
        ensures
            final(self).objects@ == Map::<Seq<char>, Object>::empty(),
            final(self).objects.keys() == Seq::<Seq<char>>::empty(),
            final(self).morphisms@ == Seq::<Morphism>::empty(),
            final(self).name == old(self).name,
    {
        self.objects.clear();
        self.morphisms.clear();
    }

    /// The number of objects and of morphisms.
    pub fn stats(&self) -> (r: StrMap<usize>)
        ensures
            r@ == stats_map(self.objects@.len(), self.morphisms@.len()),
    {
        let mut r: StrMap<usize> = StrMap::new();
        r.insert("objects".to_owned(), self.objects.len());
        r.insert("morphisms".to_owned(), self.morphisms.len());
        r
    }

    /// The flat record of each morphism, in order.
    pub fn get_morphisms(&self) -> (r: Vec<StrMap<FieldValue>>)
        ensures
            r@.len() == self.morphisms@.len(),
            forall|i: int| 0 <= i < r@.len() ==> #[trigger] r@[i]@ == morphism_record(self.morphisms@[i]),
    {
        let mut r: Vec<StrMap<FieldValue>> = Vec::new();
        let mut i: usize = 0;
        while i < self.morphisms.len()
            invariant
                i <= self.morphisms@.len(),
                r@.len() == i,
                forall|j: int| 0 <= j < i ==> #[trigger] r@[j]@ == morphism_record(self.morphisms@[j]),
            decreases self.morphisms@.len() - i,
        {
            r.push(morphism_fields(&self.morphisms[i]));
            i = i + 1;
        }
        r
    }

    /// The ids of the objects: each once, in stored order.
    pub fn get_object_ids(&self) -> (r: Vec<String>)
        ensures
            texts(r@) == self.objects.keys(),
            texts(r@).no_duplicates(),
            texts(r@).to_set() == self.objects@.dom(),
    {
        self.objects.len();
        self.objects.keys_vec()
    }
}

/// The flat record of one morphism.
pub fn morphism_fields(m: &Morphism) -> (r: StrMap<FieldValue>)
    ensures
        r@ == morphism_record(*m),
{
    let mut r: StrMap<FieldValue> = StrMap::new();
    r.insert("source".to_owned(), FieldValue::Text(m.source.clone()));
    r.insert("target".to_owned(), FieldValue::Text(m.target.clone()));
    r.insert("type".to_owned(), FieldValue::Text(m.morphism_type.clone()));
    r.insert("strength".to_owned(), FieldValue::Number(m.strength));
    let t = match m.timestamp {
        Some(t) => t,
        None => ZERO_BITS,
    };
    r.insert("timestamp".to_owned(), FieldValue::Number(t));
    r
}

} // verus!
