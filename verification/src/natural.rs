//! Natural transformations between functors, and the test of naturality.

use vstd::prelude::*;
use crate::category::Category;
use crate::model::{Functor, Morphism, FieldValue};
use crate::strmap::StrMap;

verus! {

/// A family of morphisms, one per object, from the image of the source
/// functor to the image of the target functor.
#[derive(Debug, Clone)]
pub struct NaturalTransformation {
    pub name: String,
    pub source_functor: String,
    pub target_functor: String,
    pub components: StrMap<Morphism>,
}

/// Whether `m` goes from `s` to `t`.
pub open spec fn arrow_matches(m: Morphism, s: Seq<char>, t: Seq<char>) -> bool {
    m.source@ == s && m.target@ == t
}

/// Whether `a` is the first position of `ms` holding a morphism from `s` to `t`.
pub open spec fn is_first_arrow(ms: Seq<Morphism>, s: Seq<char>, t: Seq<char>, a: int) -> bool {
    &&& 0 <= a < ms.len()
    &&& arrow_matches(ms[a], s, t)
    &&& forall|j: int| 0 <= j < a ==> !arrow_matches(#[trigger] ms[j], s, t)
}

/// Whether the component at `x` exists in both functors' images and runs from
/// the image of `x` under `fmap` to its image under `gmap`.
pub open spec fn component_fits(
    comps: Map<Seq<char>, Morphism>,
    fmap: Map<Seq<char>, String>,
    gmap: Map<Seq<char>, String>,
    x: Seq<char>,
) -> bool {
    &&& fmap.dom().contains(x)
    &&& gmap.dom().contains(x)
    &&& comps[x].source@ == fmap[x]@
    &&& comps[x].target@ == gmap[x]@
}

/// Whether every component fits.
pub open spec fn components_fit(
    comps: Map<Seq<char>, Morphism>,
    fmap: Map<Seq<char>, String>,
    gmap: Map<Seq<char>, String>,
) -> bool {
    forall|x: Seq<char>| #[trigger] comps.dom().contains(x) ==> component_fits(comps, fmap, gmap, x)
}

/// Whether `t` holds the strengths of a naturality square that must commute:
/// the component at `x`, the source morphism at position `k` leaving `x` for
/// some `y`, the component at `y`, and the first target morphisms from the
/// image of `x` to that of `y` under each functor. The strengths are, in order:
/// the arrow under `gmap`, the component at `x`, the component at `y`, the
/// arrow under `fmap`.
pub open spec fn naturality_square(
    comps: Map<Seq<char>, Morphism>,
    fmap: Map<Seq<char>, String>,
    gmap: Map<Seq<char>, String>,
    src: Seq<Morphism>,
    tgt: Seq<Morphism>,
    x: Seq<char>,
    k: int,
    t: (u64, u64, u64, u64),
) -> bool {
    let y = src[k].target@;
    &&& comps.dom().contains(x)
    &&& 0 <= k < src.len()
    &&& src[k].source@ == x
    &&& fmap.dom().contains(y)
    &&& gmap.dom().contains(y)
    &&& comps.dom().contains(y)
    &&& exists|a: int, b: int|
        #![trigger is_first_arrow(tgt, fmap[x]@, fmap[y]@, a), is_first_arrow(tgt, gmap[x]@, gmap[y]@, b)]
        {
            &&& is_first_arrow(tgt, fmap[x]@, fmap[y]@, a)
            &&& is_first_arrow(tgt, gmap[x]@, gmap[y]@, b)
            &&& t == (tgt[b].strength, comps[x].strength, comps[y].strength, tgt[a].strength)
        }
}

/// What the naturality test answers. It is false when a functor is missing or a
/// component does not fit; when everything fits, it is true exactly when every
/// naturality square passed `commutes`.
pub open spec fn naturality_outcome<C: Fn(u64, u64, u64, u64) -> bool>(
    r: bool,
    comps: Map<Seq<char>, Morphism>,
    source_functor: Seq<char>,
    target_functor: Seq<char>,
    functors: Map<Seq<char>, Functor>,
    src: Seq<Morphism>,
    tgt: Seq<Morphism>,
    commutes: C,
) -> bool {
    if !(functors.dom().contains(source_functor) && functors.dom().contains(target_functor)) {
        !r
    } else {
        let fmap = functors[source_functor].object_map@;
        let gmap = functors[target_functor].object_map@;
        &&& !components_fit(comps, fmap, gmap) ==> !r
        &&& r ==> forall|x: Seq<char>, k: int, t: (u64, u64, u64, u64)|
            #[trigger] naturality_square(comps, fmap, gmap, src, tgt, x, k, t) ==> call_ensures(
                commutes,
                t,
                true,
            )
        &&& (!r && components_fit(comps, fmap, gmap)) ==> exists|x: Seq<char>, k: int, t: (u64, u64, u64, u64)|
            #[trigger] naturality_square(comps, fmap, gmap, src, tgt, x, k, t) && call_ensures(
                commutes,
                t,
                false,
            )
    }
}

/// The first position of `ms` holding a morphism from `s` to `t`, if any.
pub fn find_arrow(ms: &Vec<Morphism>, s: &String, t: &String) -> (r: Option<usize>)
    ensures
        match r {
            Some(a) => is_first_arrow(ms@, s@, t@, a as int),
            None => forall|j: int| 0 <= j < ms@.len() ==> !arrow_matches(#[trigger] ms@[j], s@, t@),
        },
{
    let mut i: usize = 0;
    while i < ms.len()
        invariant
            i <= ms@.len(),
            forall|j: int| 0 <= j < i ==> !arrow_matches(#[trigger] ms@[j], s@, t@),
        decreases ms@.len() - i,
    {
        if ms[i].source == *s && ms[i].target == *t {
            return Some(i);
        }
        i = i + 1;
    }
    None
}

/// The first position matching is unique.
pub proof fn lemma_first_arrow_unique(ms: Seq<Morphism>, s: Seq<char>, t: Seq<char>, a: int, b: int)
    requires
        is_first_arrow(ms, s, t, a),
        is_first_arrow(ms, s, t, b),
    ensures
        a == b,
{
    if a < b {
        assert(!arrow_matches(ms[a], s, t));
    } else if b < a {
        assert(!arrow_matches(ms[b], s, t));
    }
}

/// The flat record of a component: its ends and its strength.
pub open spec fn component_record(m: Morphism) -> Map<Seq<char>, FieldValue> {
    map![
        "source"@ => FieldValue::Text(m.source),
        "target"@ => FieldValue::Text(m.target),
        "strength"@ => FieldValue::Number(m.strength)
    ]
}

impl NaturalTransformation {
    /// A transformation between the named functors, with no component yet.
    pub fn new(name: String, source_functor: String, target_functor: String) -> (r: Self)
        ensures
            r.name == name,
            r.source_functor == source_functor,
            r.target_functor == target_functor,
            r.components@ == Map::<Seq<char>, Morphism>::empty(),
    {
        NaturalTransformation { name, source_functor, target_functor, components: StrMap::new() }
    }

    /// Sets the component at `object_id` to a morphism of type
    /// "natural_component" from `source` to `target`, with the given strength,
    /// no evidence and no timestamp.
    pub fn add_component(&mut self, object_id: String, source: String, target: String, strength: u64)
        ensures
            final(self).components@.dom().contains(object_id@),
            final(self).components@ == old(self).components@.insert(
                object_id@,
                final(self).components@[object_id@],
            ),
            ({
                let c = final(self).components@[object_id@];
                &&& c.source == source
                &&& c.target == target
                &&& c.morphism_type@ == "natural_component"@
                &&& c.strength == strength
                &&& c.evidence@ == Seq::<String>::empty()
                &&& c.timestamp is None
            }),
            final(self).name == old(self).name,
            final(self).source_functor == old(self).source_functor,
            final(self).target_functor == old(self).target_functor,
    {
        let c = Morphism {
            source,
            target,
            morphism_type: "natural_component".to_owned(),
            strength,
            evidence: Vec::new(),
            timestamp: None,
        };
        self.components.insert(object_id, c);
    }

    /// The record of each component, with its object id, in stored order.
    pub fn get_components(&self) -> (r: Vec<(String, StrMap<FieldValue>)>)
        ensures
            r@.len() == self.components.keys().len(),
            forall|i: int| 0 <= i < r@.len() ==> {
                &&& (#[trigger] r@[i]).0@ == self.components.keys()[i]
                &&& r@[i].1@ == component_record(self.components@[self.components.keys()[i]])
            },
    {
        let n = self.components.len();
        let mut r: Vec<(String, StrMap<FieldValue>)> = Vec::new();
        let mut i: usize = 0;
        while i < n
            invariant
                i <= n,
                n == self.components.keys().len(),
                r@.len() == i,
                forall|j: int| 0 <= j < i ==> {
                    &&& (#[trigger] r@[j]).0@ == self.components.keys()[j]
                    &&& r@[j].1@ == component_record(self.components@[self.components.keys()[j]])
                },
            decreases n - i,
        {
            let k = self.components.key_at(i);
            let c = self.components.value_at(i);
            let mut rec: StrMap<FieldValue> = StrMap::new();
            rec.insert("source".to_owned(), FieldValue::Text(c.source.clone()));
            rec.insert("target".to_owned(), FieldValue::Text(c.target.clone()));
            rec.insert("strength".to_owned(), FieldValue::Number(c.strength));
            r.push((k.clone(), rec));
            i = i + 1;
        }
        r
    }

    /// Whether the transformation is natural between the categories of its
    /// source and target, for the functors it names. Each naturality square is
    /// judged by `commutes`, given the strengths of the arrow under the target
    /// functor, of the component at the source object, of the component at the
    /// target object, and of the arrow under the source functor.
    pub fn is_natural<C: Fn(u64, u64, u64, u64) -> bool>(
        &self,
        src_category: &Category,
        tgt_category: &Category,
        functors: &StrMap<Functor>,
        commutes: &C,
    ) -> (r: bool)
        requires
            forall|a: u64, b: u64, c: u64, d: u64| commutes.requires((a, b, c, d)),
        ensures
            naturality_outcome(
                r,
                self.components@,
                self.source_functor@,
                self.target_functor@,
                functors@,
                src_category.morphisms@,
                tgt_category.morphisms@,
                *commutes,
            ),
    {
        let f = functors.get(&self.source_functor);
        let g = functors.get(&self.target_functor);
        if f.is_none() || g.is_none() {
            return false;
        }
        let f = f.unwrap();
        let g = g.unwrap();
        let ghost comps = self.components@;
        let ghost fmap = f.object_map@;
        let ghost gmap = g.object_map@;
        let ghost src = src_category.morphisms@;
        let ghost tgt = tgt_category.morphisms@;
        let ghost keys = self.components.keys();
        assert(fmap == functors@[self.source_functor@].object_map@);
        assert(gmap == functors@[self.target_functor@].object_map@);
        let n = self.components.len();
        proof {
            self.components.lemma_dom();
        }
        let mut i: usize = 0;
        while i < n
            invariant
                i <= n,
                n == keys.len(),
                keys == self.components.keys(),
                comps == self.components@,
                comps.dom() == keys.to_set(),
                fmap == f.object_map@,
                gmap == g.object_map@,
                functors@.dom().contains(self.source_functor@),
                functors@.dom().contains(self.target_functor@),
                fmap == functors@[self.source_functor@].object_map@,
                gmap == functors@[self.target_functor@].object_map@,
                src == src_category.morphisms@,
                tgt == tgt_category.morphisms@,
                forall|a: u64, b: u64, c: u64, d: u64| commutes.requires((a, b, c, d)),
                forall|j: int| 0 <= j < i ==> component_fits(comps, fmap, gmap, #[trigger] keys[j]),
                forall|j: int, k: int, t: (u64, u64, u64, u64)|
                    0 <= j < i && #[trigger] naturality_square(comps, fmap, gmap, src, tgt, keys[j], k, t)
                        ==> call_ensures(*commutes, t, true),
            decreases n - i,
        {
            let x = self.components.key_at(i);
            let eta_x = self.components.value_at(i);
            let fx = match f.object_map.get(x) {
                Some(id) => id,
                None => {
                    assert(!component_fits(comps, fmap, gmap, keys[i as int]));
                    assert(keys.to_set().contains(keys[i as int]));
                    return false;
                },
            };
            let gx = match g.object_map.get(x) {
                Some(id) => id,
                None => {
                    assert(!component_fits(comps, fmap, gmap, keys[i as int]));
                    assert(keys.to_set().contains(keys[i as int]));
                    assert(comps.dom().contains(keys[i as int]));
                    assert(!components_fit(comps, fmap, gmap));
                    return false;
                },
            };
            if eta_x.source != *fx || eta_x.target != *gx {
                assert(!component_fits(comps, fmap, gmap, keys[i as int]));
                assert(keys.to_set().contains(keys[i as int]));
                assert(comps.dom().contains(keys[i as int]));
                assert(!components_fit(comps, fmap, gmap));
                return false;
            }
            let ghost xv = x@;
            let mut k: usize = 0;
            while k < src_category.morphisms.len()
                invariant
                    k <= src.len(),
                    src == src_category.morphisms@,
                    tgt == tgt_category.morphisms@,
                    comps == self.components@,
                    fmap == f.object_map@,
                    gmap == g.object_map@,
                    xv == keys[i as int],
                    xv == x@,
                    functors@.dom().contains(self.source_functor@),
                    functors@.dom().contains(self.target_functor@),
                    fmap == functors@[self.source_functor@].object_map@,
                    gmap == functors@[self.target_functor@].object_map@,
                    comps.dom().contains(xv),
                    *fx == fmap[xv],
                    *gx == gmap[xv],
                    *eta_x == comps[xv],
                    forall|a: u64, b: u64, c: u64, d: u64| commutes.requires((a, b, c, d)),
                    forall|kk: int, t: (u64, u64, u64, u64)|
                        0 <= kk < k && #[trigger] naturality_square(comps, fmap, gmap, src, tgt, xv, kk, t)
                            ==> call_ensures(*commutes, t, true),
                decreases src.len() - k,
            {
                let morph = &src_category.morphisms[k];
                if morph.source == *x {
                    let y = &morph.target;
                    match f.object_map.get(y) {
                        None => {},
                        Some(fy) => {
                            let ff = find_arrow(&tgt_category.morphisms, fx, fy);
                            match g.object_map.get(y) {
                                None => {},
                                Some(gy) => {
                                    let gf = find_arrow(&tgt_category.morphisms, gx, gy);
                                    let eta_y = self.components.get(y);
                                    match (ff, gf, eta_y) {
                                        (Some(a), Some(b), Some(ey)) => {
                                            let t = (
                                                tgt_category.morphisms[b].strength,
                                                eta_x.strength,
                                                ey.strength,
                                                tgt_category.morphisms[a].strength,
                                            );
                                            let ok = commutes(t.0, t.1, t.2, t.3);
                                            proof {
                                                assert(src[k as int] == *morph);
                                                assert(src[k as int].source@ == xv);
                                                assert(fmap.dom().contains(y@));
                                                assert(gmap.dom().contains(y@));
                                                assert(comps.dom().contains(y@));
                                                assert(*ey == comps[y@]);
                                                assert(tgt[b as int] == tgt_category.morphisms@[b as int]);
                                                assert(t == (tgt[b as int].strength, comps[xv].strength, comps[y@].strength, tgt[a as int].strength));
                                                assert(is_first_arrow(tgt, fmap[xv]@, fmap[y@]@, a as int));
                                                assert(is_first_arrow(tgt, gmap[xv]@, gmap[y@]@, b as int));
                                                assert(naturality_square(comps, fmap, gmap, src, tgt, xv, k as int, t));
                                                assert forall|t2: (u64, u64, u64, u64)|
                                                    #[trigger] naturality_square(comps, fmap, gmap, src, tgt, xv, k as int, t2)
                                                    implies t2 == t by {
                                                    let (a2, b2) = choose|a2: int, b2: int| {
                                                        &&& is_first_arrow(tgt, fmap[xv]@, fmap[y@]@, a2)
                                                        &&& is_first_arrow(tgt, gmap[xv]@, gmap[y@]@, b2)
                                                        &&& t2 == (tgt[b2].strength, comps[xv].strength, comps[y@].strength, tgt[a2].strength)
                                                    };
                                                    lemma_first_arrow_unique(tgt, fmap[xv]@, fmap[y@]@, a as int, a2);
                                                    lemma_first_arrow_unique(tgt, gmap[xv]@, gmap[y@]@, b as int, b2);
                                                }
                                            }
                                            if !ok {
                                                proof {
                                                    let ghost tt = t;
                                                    assert(naturality_square(comps, fmap, gmap, src, tgt, xv, k as int, tt)
                                                        && call_ensures(*commutes, tt, false));
                                                }
                                                return false;
                                            }
                                        },
                                        _ => {
                                            proof {
                                                assert forall|t2: (u64, u64, u64, u64)|
                                                    !naturality_square(comps, fmap, gmap, src, tgt, xv, k as int, t2) by {
                                                    if naturality_square(comps, fmap, gmap, src, tgt, xv, k as int, t2) {
                                                        let (a2, b2) = choose|a2: int, b2: int| {
                                                            &&& is_first_arrow(tgt, fmap[xv]@, fmap[y@]@, a2)
                                                            &&& is_first_arrow(tgt, gmap[xv]@, gmap[y@]@, b2)
                                                            &&& t2 == (tgt[b2].strength, comps[xv].strength, comps[y@].strength, tgt[a2].strength)
                                                        };
                                                        assert(arrow_matches(tgt[a2], fmap[xv]@, fmap[y@]@));
                                                        assert(arrow_matches(tgt[b2], gmap[xv]@, gmap[y@]@));
                                                    }
                                                }
                                            }
                                        },
                                    }
                                },
                            }
                        },
                    }
                }
                k = k + 1;
            }
            i = i + 1;
        }
        proof {
            assert forall|x: Seq<char>| #[trigger] comps.dom().contains(x) implies component_fits(comps, fmap, gmap, x) by {
                assert(keys.to_set().contains(x));
                let j = choose|j: int| 0 <= j < keys.len() && keys[j] == x;
                assert(component_fits(comps, fmap, gmap, keys[j]));
            }
            assert forall|x: Seq<char>, k: int, t: (u64, u64, u64, u64)|
                #[trigger] naturality_square(comps, fmap, gmap, src, tgt, x, k, t) implies call_ensures(*commutes, t, true) by {
                assert(keys.to_set().contains(x));
                let j = choose|j: int| 0 <= j < keys.len() && keys[j] == x;
                assert(naturality_square(comps, fmap, gmap, src, tgt, keys[j], k, t));
            }
        }
        true
    }
}

} // verus!
