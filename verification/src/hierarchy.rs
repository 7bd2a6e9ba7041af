//! A hierarchy of categories by level, with the functors, process categories
//! and natural transformations built between them.

use vstd::prelude::*;
use crate::category::{Category, stats_map, morphism_record};
use crate::levelmap::LevelMap;
use crate::model::{Object, Functor, FunctorDirection, Morphism, FieldValue, HALF_BITS, texts, text_map, copy_strings, single_text};
use crate::features::{feature_matrix, is_feature_matrix};
use crate::lift::{
    level_name, lift_name, lift_assignment, lifted_properties, is_lifted_objects,
    is_lifted_morphisms, make_level_name, make_lift_name, lift_object_map, lift_objects, lift_morphisms,
};
use crate::natural::{NaturalTransformation, naturality_outcome};
use crate::process::{
    ProcessCategory, StochasticMorphism, composable_pairs, is_composite, process_record, process_fields,
};
use crate::strmap::StrMap;
use crate::text::{decimal, signed_decimal, push_decimal, push_signed_decimal};

verus! {

/// Categories by level, process categories by level, and the functors and
/// natural transformations between them, by name.
#[derive(Debug)]
pub struct Hierarchy {
    categories: LevelMap<Category>,
    process_categories: LevelMap<ProcessCategory>,
    functors: StrMap<Functor>,
    natural_transformations: StrMap<NaturalTransformation>,
}

/// Whether `r` failed with the message `msg`.
pub open spec fn fails_with<T>(r: Result<T, String>, msg: Seq<char>) -> bool {
    r matches Err(e) && e@ == msg
}

/// The name of a temporal endofunctor over a time window.
pub open spec fn endo_name(start: i64, end: i64) -> Seq<char> {
    "endo_t"@ + signed_decimal(start as int) + "_"@ + signed_decimal(end as int)
}

/// The name of the process category built from a level.
pub open spec fn process_name(level: u32) -> Seq<char> {
    "process_"@ + decimal(level as nat)
}

/// The name of the transformation comparing two functors.
pub open spec fn comparison_name(f1: Seq<char>, f2: Seq<char>) -> Seq<char> {
    f1 + "->"@ + f2
}

/// The identity map on a set of texts.
pub open spec fn identity_on(ids: Set<Seq<char>>) -> Map<Seq<char>, Seq<char>> {
    Map::new(|k: Seq<char>| ids.contains(k), |k: Seq<char>| k)
}

/// Whether `p` is the process made from morphism `m`: same ends, type,
/// evidence and timestamp, the strength taken as the probability.
pub open spec fn process_of(p: StochasticMorphism, m: Morphism) -> bool {
    &&& p.source == m.source
    &&& p.target == m.target
    &&& p.morphism_type == m.morphism_type
    &&& p.probability == m.strength
    &&& p.evidence@ == m.evidence@
    &&& p.timestamp == m.timestamp
}

/// The map sending each object id to itself, keys in the same order.
pub fn identity_object_map(objects: &StrMap<Object>) -> (r: StrMap<String>)
    ensures
        r.keys() == objects.keys(),
        text_map(r@) == identity_on(objects@.dom()),
{
    let n = objects.len();
    let ghost keys = objects.keys();
    let mut r: StrMap<String> = StrMap::new();
    let mut i: usize = 0;
    while i < n
        invariant
            i <= n,
            n == keys.len(),
            keys == objects.keys(),
            keys.no_duplicates(),
            r.keys() == keys.take(i as int),
            forall|j: int| 0 <= j < i ==> (#[trigger] r@[keys[j]])@ == keys[j],
        decreases n - i,
    {
        let k = objects.key_at(i);
        proof {
            r.lemma_dom();
            if r.keys().contains(k@) {
                let j = choose|j: int| 0 <= j < r.keys().len() && r.keys()[j] == k@;
                assert(keys[j] == keys[i as int]);
            }
        }
        r.insert(k.clone(), k.clone());
        proof {
            assert(keys.take(i + 1) =~= keys.take(i as int).push(keys[i as int]));
        }
        i = i + 1;
    }
    proof {
        assert(keys.take(n as int) =~= keys);
        r.lemma_dom();
        objects.lemma_dom();
        assert forall|k: Seq<char>| #[trigger] r@.dom().contains(k) implies r@[k]@ == k by {
            let j = choose|j: int| 0 <= j < keys.len() && keys[j] == k;
            assert(r@[keys[j]]@ == keys[j]);
        }
        assert(text_map(r@) =~= identity_on(objects@.dom()));
    }
    r
}

/// Whether `rec` is the flat record of a composite of `p1` followed by `p2`.
pub open spec fn is_two_step_record<F: Fn(u64, u64) -> u64>(
    rec: Map<Seq<char>, FieldValue>,
    p1: StochasticMorphism,
    p2: StochasticMorphism,
    combine: F,
) -> bool {
    exists|c: StochasticMorphism| #[trigger] is_composite(c, p1, p2, combine) && rec == process_record(c)
}

/// The name of a temporal endofunctor.
fn make_endo_name(start: i64, end: i64) -> (r: String)
    ensures
        r@ == endo_name(start, end),
{
    proof {
        reveal_strlit("endo_t");
        reveal_strlit("_");
    }
    let mut r = String::new();
    r.append("endo_t");
    push_signed_decimal(&mut r, start);
    r.append("_");
    push_signed_decimal(&mut r, end);
    assert(r@ =~= endo_name(start, end));
    r
}

/// The name of a process category.
fn make_process_name(level: u32) -> (r: String)
    ensures
        r@ == process_name(level),
{
    let mut r = String::new();
    r.append("process_");
    push_decimal(&mut r, level as u64);
    assert(r@ =~= process_name(level));
    r
}

/// The processes made from a list of morphisms, one for each, in order.
fn processes_from(ms: &Vec<Morphism>) -> (r: Vec<StochasticMorphism>)
    ensures
        r@.len() == ms@.len(),
        forall|i: int| 0 <= i < r@.len() ==> process_of(#[trigger] r@[i], ms@[i]),
{
    let mut r: Vec<StochasticMorphism> = Vec::new();
    let mut i: usize = 0;
    while i < ms.len()
        invariant
            i <= ms@.len(),
            r@.len() == i,
            forall|j: int| 0 <= j < i ==> process_of(#[trigger] r@[j], ms@[j]),
        decreases ms@.len() - i,
    {
        let m = &ms[i];
        r.push(StochasticMorphism {
            source: m.source.clone(),
            target: m.target.clone(),
            morphism_type: m.morphism_type.clone(),
            probability: m.strength,
            evidence: copy_strings(&m.evidence),
            timestamp: m.timestamp,
        });
        i = i + 1;
    }
    r
}

/// Whether `c` is the component that compares the images `fx1` and `fx2` of an
/// object: a morphism of type "natural_component" between them, of strength
/// 0.5, with the evidence "auto" and no timestamp.
pub open spec fn is_comparison_component(c: Morphism, fx1: String, fx2: String) -> bool {
    &&& c.source == fx1
    &&& c.target == fx2
    &&& c.morphism_type@ == "natural_component"@
    &&& c.strength == HALF_BITS
    &&& texts(c.evidence@) == seq!["auto"@]
    &&& c.timestamp is None
}

/// Whether `comps` compares the two object maps on the objects `ids`: it has a
/// component exactly at the ids that both maps send somewhere.
pub open spec fn is_comparison(
    comps: Map<Seq<char>, Morphism>,
    ids: Set<Seq<char>>,
    m1: Map<Seq<char>, String>,
    m2: Map<Seq<char>, String>,
) -> bool {
    &&& forall|x: Seq<char>|
        #[trigger] comps.dom().contains(x) <==> (ids.contains(x) && m1.dom().contains(x) && m2.dom().contains(x))
    &&& forall|x: Seq<char>| #[trigger] comps.dom().contains(x) ==> is_comparison_component(comps[x], m1[x], m2[x])
}

/// The components comparing two object maps over the keys of `objects`.
fn comparison_components(
    objects: &StrMap<Object>,
    m1: &StrMap<String>,
    m2: &StrMap<String>,
) -> (r: StrMap<Morphism>)
    ensures
        is_comparison(r@, objects@.dom(), m1@, m2@),
{
    proof {
        reveal_strlit("auto");
    }
    let n = objects.len();
    let ghost keys = objects.keys();
    let mut r: StrMap<Morphism> = StrMap::new();
    let mut i: usize = 0;
    while i < n
        invariant
            i <= n,
            n == keys.len(),
            keys == objects.keys(),
            forall|x: Seq<char>|
                #[trigger] r@.dom().contains(x) <==> (keys.take(i as int).contains(x) && m1@.dom().contains(x)
                    && m2@.dom().contains(x)),
            forall|x: Seq<char>| #[trigger] r@.dom().contains(x) ==> is_comparison_component(r@[x], m1@[x], m2@[x]),
        decreases n - i,
    {
        let x = objects.key_at(i);
        let ghost before = r@;
        match (m1.get(x), m2.get(x)) {
            (Some(fx1), Some(fx2)) => {
                let c = Morphism {
                    source: fx1.clone(),
                    target: fx2.clone(),
                    morphism_type: "natural_component".to_owned(),
                    strength: HALF_BITS,
                    evidence: single_text("auto"),
                    timestamp: None,
                };
                r.insert(x.clone(), c);
            },
            _ => {},
        }
        proof {
            let t0 = keys.take(i as int);
            let t1 = keys.take(i + 1);
            assert(t1 =~= t0.push(keys[i as int]));
            assert forall|q: Seq<char>| t1.contains(q) <==> (t0.contains(q) || q == x@) by {
                if q == x@ {
                    assert(t1[i as int] == q);
                }
                if t1.contains(q) && q != x@ {
                    let j = choose|j: int| 0 <= j < t1.len() && t1[j] == q;
                    assert(t0[j] == q);
                }
                if t0.contains(q) {
                    let j = choose|j: int| 0 <= j < t0.len() && t0[j] == q;
                    assert(t1[j] == q);
                }
            }
        }
        i = i + 1;
    }
    proof {
        assert(keys.take(n as int) =~= keys);
        objects.lemma_dom();
    }
    r
}

impl Hierarchy {
    /// The categories, by level.
    pub closed spec fn category_map(&self) -> Map<u32, Category> {
        self.categories@
    }

    /// The levels that hold a category, ascending.
    pub closed spec fn level_seq(&self) -> Seq<u32> {
        self.categories.levels()
    }

    /// The process categories, by level.
    pub closed spec fn process_map(&self) -> Map<u32, ProcessCategory> {
        self.process_categories@
    }

    /// The functors, by name.
    pub closed spec fn functor_map(&self) -> Map<Seq<char>, Functor> {
        self.functors@
    }

    /// The functor names, in the order they were first added.
    pub closed spec fn functor_names(&self) -> Seq<Seq<char>> {
        self.functors.keys()
    }

    /// The natural transformations, by name.
    pub closed spec fn transformation_map(&self) -> Map<Seq<char>, NaturalTransformation> {
        self.natural_transformations@
    }

    /// An empty hierarchy.
    pub fn new() -> (h: Self)
        ensures
            h.category_map() == Map::<u32, Category>::empty(),
            h.level_seq() == Seq::<u32>::empty(),
            h.process_map() == Map::<u32, ProcessCategory>::empty(),
            h.functor_map() == Map::<Seq<char>, Functor>::empty(),
            h.functor_names() == Seq::<Seq<char>>::empty(),
            h.transformation_map() == Map::<Seq<char>, NaturalTransformation>::empty(),
    {
        Hierarchy {
            categories: LevelMap::new(),
            process_categories: LevelMap::new(),
            functors: StrMap::new(),
            natural_transformations: StrMap::new(),
        }
    }

    /// Puts `category` at `level`, replacing any category there.
    pub fn add_category(&mut self, level: u32, category: Category)
        ensures
            final(self).category_map() == old(self).category_map().insert(level, category),
            final(self).level_seq().to_set() == old(self).level_seq().to_set().insert(level),
            final(self).process_map() == old(self).process_map(),
            final(self).functor_map() == old(self).functor_map(),
            final(self).functor_names() == old(self).functor_names(),
            final(self).transformation_map() == old(self).transformation_map(),
    {
        self.categories.insert(level, category);
    }

    /// Records `nt` under its name, replacing any transformation of that name.
    pub fn add_natural_transformation(&mut self, nt: NaturalTransformation)
        ensures
            final(self).transformation_map() == old(self).transformation_map().insert(nt.name@, nt),
            final(self).category_map() == old(self).category_map(),
            final(self).level_seq() == old(self).level_seq(),
            final(self).process_map() == old(self).process_map(),
            final(self).functor_map() == old(self).functor_map(),
            final(self).functor_names() == old(self).functor_names(),
    {
        let name = nt.name.clone();
        self.natural_transformations.insert(name, nt);
    }

    /// The counts of objects and morphisms at `level`, if it holds a category.
    pub fn get_category_stats(&self, level: u32) -> (r: Option<StrMap<usize>>)
        ensures
            r is Some <==> self.category_map().dom().contains(level),
            r matches Some(s) ==> s@ == stats_map(
                self.category_map()[level].objects@.len(),
                self.category_map()[level].morphisms@.len(),
            ),
    {
        match self.categories.get(level) {
            Some(c) => Some(c.stats()),
            None => None,
        }
    }

    /// The flat records of the morphisms at `level`, if it holds a category.
    pub fn get_category_morphisms(&self, level: u32) -> (r: Option<Vec<StrMap<FieldValue>>>)
        ensures
            r is Some <==> self.category_map().dom().contains(level),
            r matches Some(v) ==> {
                let ms = self.category_map()[level].morphisms@;
                &&& v@.len() == ms.len()
                &&& forall|i: int| 0 <= i < v@.len() ==> #[trigger] v@[i]@ == morphism_record(ms[i])
            },
    {
        match self.categories.get(level) {
            Some(c) => Some(c.get_morphisms()),
            None => None,
        }
    }

    /// The object ids at `level`, if it holds a category.
    pub fn get_category_object_ids(&self, level: u32) -> (r: Option<Vec<String>>)
        ensures
            r is Some <==> self.category_map().dom().contains(level),
            r matches Some(v) ==> {
                &&& texts(v@) == self.category_map()[level].objects.keys()
                &&& texts(v@).no_duplicates()
                &&& texts(v@).to_set() == self.category_map()[level].objects@.dom()
            },
    {
        match self.categories.get(level) {
            Some(c) => Some(c.get_object_ids()),
            None => None,
        }
    }

    /// Builds the identity functor of the category at `level`, named after the
    /// time window from `start` to `end`, records it under that name, and
    /// returns the name.
    pub fn build_temporal_endofunctor(&mut self, level: u32, start: i64, end: i64) -> (r: Result<String, String>)
        ensures
            !old(self).category_map().dom().contains(level) ==> fails_with(r, "Category not found"@)
                && *final(self) == *old(self),
            old(self).category_map().dom().contains(level) ==> (r matches Ok(name) && name@ == endo_name(start, end)
                && {
                let f = final(self).functor_map()[name@];
                let objects = old(self).category_map()[level].objects;
                &&& final(self).functor_map() == old(self).functor_map().insert(name@, f)
                &&& f.name@ == name@
                &&& f.source_level == level
                &&& f.target_level == level
                &&& f.direction is Endo
                &&& f.object_map.keys() == objects.keys()
                &&& text_map(f.object_map@) == identity_on(objects@.dom())
            }),
            final(self).category_map() == old(self).category_map(),
            final(self).level_seq() == old(self).level_seq(),
            final(self).process_map() == old(self).process_map(),
            final(self).transformation_map() == old(self).transformation_map(),
    {
        let object_map = match self.categories.get(level) {
            Some(cat) => identity_object_map(&cat.objects),
            None => {
                return Err("Category not found".to_owned());
            },
        };
        let functor_name = make_endo_name(start, end);
        let functor = Functor {
            name: functor_name.clone(),
            source_level: level,
            target_level: level,
            direction: FunctorDirection::Endo,
            object_map,
        };
        self.functors.insert(functor_name.clone(), functor);
        Ok(functor_name)
    }

    /// Builds the process category of the level: one process per morphism,
    /// its strength as the probability. It is stored at `level + 2000`; its
    /// name is returned.
    pub fn build_process_category(&mut self, level: u32) -> (r: Result<String, String>)
        requires
            old(self).category_map().dom().contains(level) ==> level + 2000 <= u32::MAX,
        ensures
            !old(self).category_map().dom().contains(level) ==> fails_with(r, "Category not found"@)
                && *final(self) == *old(self),
            old(self).category_map().dom().contains(level) ==> (r matches Ok(name) && name@ == process_name(level)
                && {
                let key = (level + 2000) as u32;
                let p = final(self).process_map()[key];
                let ms = old(self).category_map()[level].morphisms@;
                &&& final(self).process_map() == old(self).process_map().insert(key, p)
                &&& p.name@ == process_name(level)
                &&& p.objects@ == Map::<Seq<char>, Object>::empty()
                &&& p.processes@.len() == ms.len()
                &&& forall|i: int| 0 <= i < ms.len() ==> process_of(#[trigger] p.processes@[i], ms[i])
            }),
            final(self).category_map() == old(self).category_map(),
            final(self).level_seq() == old(self).level_seq(),
            final(self).functor_map() == old(self).functor_map(),
            final(self).functor_names() == old(self).functor_names(),
            final(self).transformation_map() == old(self).transformation_map(),
    {
        let processes = match self.categories.get(level) {
            Some(cat) => processes_from(&cat.morphisms),
            None => {
                return Err("Category not found".to_owned());
            },
        };
        let mut proc_cat = ProcessCategory::new(make_process_name(level));
        proc_cat.processes = processes;
        self.process_categories.insert(level + 2000, proc_cat);
        Ok(make_process_name(level))
    }

    /// Compares two functors on the objects at `level`: a transformation named
    /// "f1->f2" with a component at each object that both functors map.
    pub fn compare_functors(&self, f1_name: &str, f2_name: &str, level: u32) -> (r: Result<
        NaturalTransformation,
        String,
    >)
        ensures
            !self.category_map().dom().contains(level) ==> fails_with(r, "Category not found"@),
            self.category_map().dom().contains(level) && !self.functor_map().dom().contains(f1_name@)
                ==> fails_with(r, "Functor 1 not found"@),
            self.category_map().dom().contains(level) && self.functor_map().dom().contains(f1_name@)
                && !self.functor_map().dom().contains(f2_name@) ==> fails_with(r, "Functor 2 not found"@),
            self.category_map().dom().contains(level) && self.functor_map().dom().contains(f1_name@)
                && self.functor_map().dom().contains(f2_name@) ==> (r matches Ok(nt) && {
                &&& nt.name@ == comparison_name(f1_name@, f2_name@)
                &&& nt.source_functor@ == f1_name@
                &&& nt.target_functor@ == f2_name@
                &&& is_comparison(
                    nt.components@,
                    self.category_map()[level].objects@.dom(),
                    self.functor_map()[f1_name@].object_map@,
                    self.functor_map()[f2_name@].object_map@,
                )
            }),
    {
        let cat = match self.categories.get(level) {
            Some(c) => c,
            None => {
                return Err("Category not found".to_owned());
            },
        };
        let n1 = f1_name.to_owned();
        let n2 = f2_name.to_owned();
        let f1 = match self.functors.get(&n1) {
            Some(f) => f,
            None => {
                return Err("Functor 1 not found".to_owned());
            },
        };
        let f2 = match self.functors.get(&n2) {
            Some(f) => f,
            None => {
                return Err("Functor 2 not found".to_owned());
            },
        };
        let components = comparison_components(&cat.objects, &f1.object_map, &f2.object_map);
        let mut name = String::new();
        name.append(f1_name);
        name.append("->");
        name.append(f2_name);
        Ok(NaturalTransformation { name, source_functor: n1, target_functor: n2, components })
    }

    /// The feature matrix of the category at `level`: its object ids, and for
    /// each the values of every property name that occurs there (0.0 where
    /// the object lacks one). None when the level holds no category or one
    /// without objects.
    pub fn build_feature_matrix(&self, level: u32) -> (r: Option<(Vec<String>, Vec<Vec<u64>>)>)
        ensures
            r is None <==> (!self.category_map().dom().contains(level)
                || self.category_map()[level].objects@.len() == 0),
            r matches Some(m) ==> is_feature_matrix(self.category_map()[level], m.0@, m.1@) && m.0@.len()
                == self.category_map()[level].objects@.len(),
    {
        let cat = match self.categories.get(level) {
            Some(c) => c,
            None => {
                return None;
            },
        };
        if cat.objects.len() == 0 {
            return None;
        }
        Some(feature_matrix(cat))
    }

    /// Checks a request to lift `from_level` into `n_clusters` clusters at
    /// `to_level` and gives the feature matrix to cluster.
    pub fn lift_features(&self, from_level: u32, to_level: u32, n_clusters: usize) -> (r: Result<
        (Vec<String>, Vec<Vec<u64>>),
        String,
    >)
        ensures
            ({
                let present = self.category_map().dom().contains(from_level);
                let count = self.category_map()[from_level].objects@.len();
                &&& (from_level >= to_level || n_clusters == 0) ==> fails_with(r, "Invalid levels or clusters"@)
                &&& (from_level < to_level && n_clusters > 0 && (!present || count == 0)) ==> fails_with(
                    r,
                    "No objects to lift"@,
                )
                &&& (from_level < to_level && n_clusters > 0 && present && count > 0 && n_clusters >= count)
                    ==> fails_with(r, "Too many clusters"@)
                &&& (from_level < to_level && n_clusters > 0 && present && count > 0 && n_clusters < count) ==> (
                r matches Ok(m) && is_feature_matrix(self.category_map()[from_level], m.0@, m.1@))
            }),
    {
        if from_level >= to_level || n_clusters == 0 {
            return Err("Invalid levels or clusters".to_owned());
        }
        let (ids, rows) = match self.build_feature_matrix(from_level) {
            Some(m) => m,
            None => {
                return Err("No objects to lift".to_owned());
            },
        };
        if n_clusters >= ids.len() {
            return Err("Too many clusters".to_owned());
        }
        Ok((ids, rows))
    }

    /// Lifts `from_level` to `to_level` given the cluster of each object, in
    /// the order of the feature matrix: each object goes to the object of its
    /// cluster, the category of clusters replaces the one at `to_level`, and
    /// the lifting functor is recorded.
    pub fn auto_lift(&mut self, from_level: u32, to_level: u32, n_clusters: usize, assignments: &Vec<usize>) -> (r:
        Result<(), String>)
        requires
            old(self).category_map().dom().contains(from_level) ==> assignments@.len()
                <= old(self).category_map()[from_level].objects@.len(),
        ensures
            ({
                let present = old(self).category_map().dom().contains(from_level);
                let cat = old(self).category_map()[from_level];
                let count = cat.objects@.len();
                let valid = from_level < to_level && n_clusters > 0;
                &&& !valid ==> fails_with(r, "Invalid levels or clusters"@) && *final(self) == *old(self)
                &&& (valid && (!present || count == 0)) ==> fails_with(r, "No objects to lift"@) && *final(self)
                    == *old(self)
                &&& (valid && present && count > 0 && n_clusters >= count) ==> fails_with(r, "Too many clusters"@)
                    && *final(self) == *old(self)
                &&& (valid && present && count > 0 && n_clusters < count) ==> (r is Ok && {
                    let keys = cat.objects.keys();
                    let name = lift_name(from_level, to_level);
                    let f = final(self).functor_map()[name];
                    let om = text_map(f.object_map@);
                    let c = final(self).category_map()[to_level];
                    &&& final(self).functor_map() == old(self).functor_map().insert(name, f)
                    &&& f.name@ == name
                    &&& f.source_level == from_level
                    &&& f.target_level == to_level
                    &&& f.direction is Lift
                    &&& om == lift_assignment(keys, assignments@, to_level, assignments@.len())
                    &&& f.object_map.keys() == keys.take(assignments@.len() as int)
                    &&& final(self).category_map() == old(self).category_map().insert(to_level, c)
                    &&& c.name@ == level_name(to_level)
                    &&& is_lifted_objects(
                        c.objects@,
                        lifted_properties(cat.objects@, f.object_map.keys(), om, f.object_map.keys().len()),
                    )
                    &&& is_lifted_morphisms(c.morphisms@, cat.morphisms@, om)
                })
            }),
            final(self).process_map() == old(self).process_map(),
            final(self).transformation_map() == old(self).transformation_map(),
    {
        let (ids, _rows) = match self.lift_features(from_level, to_level, n_clusters) {
            Ok(m) => m,
            Err(e) => {
                return Err(e);
            },
        };
        let ghost cat = self.category_map()[from_level];
        proof {
            cat.objects.lemma_dom();
        }
        let (objects, morphisms, object_map) = match self.categories.get(from_level) {
            Some(src_cat) => {
                src_cat.objects.len();
                let object_map = lift_object_map(&ids, assignments, to_level);
                let objects = lift_objects(&src_cat.objects, &object_map);
                let morphisms = lift_morphisms(&src_cat.morphisms, &object_map);
                (objects, morphisms, object_map)
            },
            None => {
                return Err("No objects to lift".to_owned());
            },
        };
        let mut new_cat = Category::new(make_level_name(to_level));
        new_cat.objects = objects;
        new_cat.morphisms = morphisms;
        self.categories.insert(to_level, new_cat);
        let name = make_lift_name(from_level, to_level);
        let functor = Functor {
            name: name.clone(),
            source_level: from_level,
            target_level: to_level,
            direction: FunctorDirection::Lift,
            object_map,
        };
        self.functors.insert(name, functor);
        Ok(())
    }

    /// The flat records of the two-step processes of the process category at
    /// `level`, if there is one; probabilities are combined with `combine`.
    pub fn get_process_two_step<F: Fn(u64, u64) -> u64>(&self, level: u32, combine: &F) -> (r: Option<
        Vec<StrMap<FieldValue>>,
    >)
        requires
            forall|a: u64, b: u64| combine.requires((a, b)),
        ensures
            r is Some <==> self.process_map().dom().contains(level),
            r matches Some(v) ==> {
                let ps = self.process_map()[level].processes@;
                let pairs = composable_pairs(ps, ps.len());
                &&& v@.len() == pairs.len()
                &&& forall|k: int| 0 <= k < v@.len() ==> is_two_step_record(
                    (#[trigger] v@[k])@,
                    ps[pairs[k].0],
                    ps[pairs[k].1],
                    *combine,
                )
            },
    {
        let pc = match self.process_categories.get(level) {
            Some(pc) => pc,
            None => {
                return None;
            },
        };
        let composites = pc.find_two_step_processes(combine);
        let ghost ps = pc.processes@;
        let ghost pairs = composable_pairs(ps, ps.len());
        let ghost all = composites@;
        let mut out: Vec<StrMap<FieldValue>> = Vec::new();
        for c in it: composites
            invariant
                it.seq() == all,
                all.len() == pairs.len(),
                forall|k: int| 0 <= k < all.len() ==> is_composite(
                    #[trigger] all[k],
                    ps[pairs[k].0],
                    ps[pairs[k].1],
                    *combine,
                ),
                out@.len() == it.index(),
                forall|k: int| 0 <= k < out@.len() ==> (#[trigger] out@[k])@ == process_record(all[k]),
        {
            out.push(process_fields(c));
        }
        proof {
            assert(out@.len() == all.len());
            assert forall|k: int| 0 <= k < out@.len() implies is_two_step_record(
                (#[trigger] out@[k])@,
                ps[pairs[k].0],
                ps[pairs[k].1],
                *combine,
            ) by {
                assert(is_composite(all[k], ps[pairs[k].0], ps[pairs[k].1], *combine));
                assert(out@[k]@ == process_record(all[k]));
            }
        }
        Some(out)
    }

    /// The levels that hold a category, in ascending order.
    pub fn get_levels(&self) -> (r: Vec<u32>)
        ensures
            r@ == self.level_seq(),
            forall|i: int, j: int| 0 <= i < j < r@.len() ==> r@[i] < r@[j],
            r@.to_set() == self.category_map().dom(),
    {
        self.categories.levels_vec()
    }

    /// The names of the functors, each once.
    pub fn get_functor_names(&self) -> (r: Vec<String>)
        ensures
            texts(r@) == self.functor_names(),
            texts(r@).no_duplicates(),
            texts(r@).to_set() == self.functor_map().dom(),
    {
        self.functors.len();
        self.functors.keys_vec()
    }
}

impl NaturalTransformation {
    /// Whether the transformation is natural from the category at level 0 to
    /// the category at level 1 of the hierarchy, for the hierarchy's functors.
    pub fn is_natural_in<C: Fn(u64, u64, u64, u64) -> bool>(&self, hierarchy: &Hierarchy, commutes: &C) -> (r:
        Result<bool, String>)
        requires
            forall|a: u64, b: u64, c: u64, d: u64| commutes.requires((a, b, c, d)),
        ensures
            !hierarchy.category_map().dom().contains(0) ==> fails_with(r, "Source category not found"@),
            hierarchy.category_map().dom().contains(0) && !hierarchy.category_map().dom().contains(1) ==> fails_with(
                r,
                "Target category not found"@,
            ),
            hierarchy.category_map().dom().contains(0) && hierarchy.category_map().dom().contains(1) ==> (r matches Ok(
                b,
            ) && naturality_outcome(
                b,
                self.components@,
                self.source_functor@,
                self.target_functor@,
                hierarchy.functor_map(),
                hierarchy.category_map()[0].morphisms@,
                hierarchy.category_map()[1].morphisms@,
                *commutes,
            )),
    {
        let src_cat = match hierarchy.categories.get(0) {
            Some(c) => c,
            None => {
                return Err("Source category not found".to_owned());
            },
        };
        let tgt_cat = match hierarchy.categories.get(1) {
            Some(c) => c,
            None => {
                return Err("Target category not found".to_owned());
            },
        };
        Ok(self.is_natural(src_cat, tgt_cat, &hierarchy.functors, commutes))
    }
}

} // verus!
