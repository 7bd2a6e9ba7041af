//! Lifting a level to a coarser one: objects are merged by cluster, and the
//! morphisms between clustered objects are carried along.

use vstd::prelude::*;
use crate::model::{Object, Morphism, texts, text_map, single_text};
use crate::strmap::StrMap;
use crate::text::{decimal, push_decimal};

verus! {

/// The id of a cluster's object at a level: "L", the level, "_C", the cluster.
pub open spec fn cluster_name(level: u32, cluster: usize) -> Seq<char> {
    "L"@ + decimal(level as nat) + "_C"@ + decimal(cluster as nat)
}

/// The name of the category built at a level: "level_" and the level.
pub open spec fn level_name(level: u32) -> Seq<char> {
    "level_"@ + decimal(level as nat)
}

/// The name of the functor lifting one level to another.
pub open spec fn lift_name(from_level: u32, to_level: u32) -> Seq<char> {
    "lift_"@ + decimal(from_level as nat) + "_"@ + decimal(to_level as nat)
}

/// The map from the first `n` ids to the objects of their clusters, a later
/// assignment of the same id winning.
pub open spec fn lift_assignment(ids: Seq<Seq<char>>, a: Seq<usize>, to_level: u32, n: nat) -> Map<
    Seq<char>,
    Seq<char>,
>
    decreases n,
{
    if n == 0 {
        Map::empty()
    } else {
        lift_assignment(ids, a, to_level, (n - 1) as nat).insert(ids[n - 1], cluster_name(to_level, a[n - 1]))
    }
}

/// The properties of the lifted objects, visiting the first `n` keys of the
/// object map in order: each mapped object that exists passes its properties
/// to its image, a later one replacing an earlier one with the same image.
pub open spec fn lifted_properties(
    objs: Map<Seq<char>, Object>,
    om_keys: Seq<Seq<char>>,
    om: Map<Seq<char>, Seq<char>>,
    n: nat,
) -> Map<Seq<char>, Map<Seq<char>, u64>>
    decreases n,
{
    if n == 0 {
        Map::empty()
    } else {
        let prev = lifted_properties(objs, om_keys, om, (n - 1) as nat);
        let s = om_keys[n - 1];
        if objs.dom().contains(s) {
            prev.insert(om[s], objs[s].properties@)
        } else {
            prev
        }
    }
}

/// Whether `objs` are the lifted objects with the given properties: each is
/// keyed by its own id, of type "abstract".
pub open spec fn is_lifted_objects(objs: Map<Seq<char>, Object>, props: Map<Seq<char>, Map<Seq<char>, u64>>) -> bool {
    &&& objs.dom() == props.dom()
    &&& forall|k: Seq<char>| #[trigger] objs.dom().contains(k) ==> {
        &&& objs[k].id@ == k
        &&& objs[k].object_type@ == "abstract"@
        &&& objs[k].properties@ == props[k]
    }
}

/// The positions, among the first `n` morphisms, of those whose two ends are
/// both mapped.
pub open spec fn lift_indices(ms: Seq<Morphism>, om: Map<Seq<char>, Seq<char>>, n: nat) -> Seq<int>
    decreases n,
{
    if n == 0 {
        Seq::empty()
    } else {
        let prev = lift_indices(ms, om, (n - 1) as nat);
        let m = ms[n - 1];
        if om.dom().contains(m.source@) && om.dom().contains(m.target@) {
            prev.push(n - 1)
        } else {
            prev
        }
    }
}

/// Whether `l` is `m` carried along the object map: mapped ends, same type,
/// strength and timestamp, and the evidence "lifted".
pub open spec fn is_lifted_morphism(l: Morphism, m: Morphism, om: Map<Seq<char>, Seq<char>>) -> bool {
    &&& l.source@ == om[m.source@]
    &&& l.target@ == om[m.target@]
    &&& l.morphism_type == m.morphism_type
    &&& l.strength == m.strength
    &&& texts(l.evidence@) == seq!["lifted"@]
    &&& l.timestamp == m.timestamp
}

/// Whether `ls` are the morphisms of `ms` whose ends are both mapped, in
/// order, carried along the object map.
pub open spec fn is_lifted_morphisms(ls: Seq<Morphism>, ms: Seq<Morphism>, om: Map<Seq<char>, Seq<char>>) -> bool {
    let idx = lift_indices(ms, om, ms.len());
    &&& ls.len() == idx.len()
    &&& forall|k: int| 0 <= k < ls.len() ==> is_lifted_morphism(#[trigger] ls[k], ms[idx[k]], om)
}

/// Every position chosen lies within the morphisms and has both ends mapped.
pub proof fn lemma_lift_indices(ms: Seq<Morphism>, om: Map<Seq<char>, Seq<char>>, n: nat)
    requires
        n <= ms.len(),
    ensures
        forall|k: int| 0 <= k < lift_indices(ms, om, n).len() ==> {
            let i = #[trigger] lift_indices(ms, om, n)[k];
            &&& 0 <= i < n
            &&& om.dom().contains(ms[i].source@)
            &&& om.dom().contains(ms[i].target@)
        },
    decreases n,
{
    if n > 0 {
        lemma_lift_indices(ms, om, (n - 1) as nat);
    }
}

/// The id of a cluster's object.
pub fn make_cluster_name(level: u32, cluster: usize) -> (r: String)
    ensures
        r@ == cluster_name(level, cluster),
{
    let mut r = String::new();
    r.append("L");
    push_decimal(&mut r, level as u64);
    r.append("_C");
    push_decimal(&mut r, cluster as u64);
    assert(r@ =~= cluster_name(level, cluster));
    r
}

/// The name of the category at a level.
pub fn make_level_name(level: u32) -> (r: String)
    ensures
        r@ == level_name(level),
{
    let mut r = String::new();
    r.append("level_");
    push_decimal(&mut r, level as u64);
    assert(r@ =~= level_name(level));
    r
}

/// The name of a lifting functor.
pub fn make_lift_name(from_level: u32, to_level: u32) -> (r: String)
    ensures
        r@ == lift_name(from_level, to_level),
{
    let mut r = String::new();
    r.append("lift_");
    push_decimal(&mut r, from_level as u64);
    r.append("_");
    push_decimal(&mut r, to_level as u64);
    assert(r@ =~= lift_name(from_level, to_level));
    r
}

/// The map sending `ids[i]` to the object of cluster `a[i]`, for each `i`.
pub fn lift_object_map(ids: &Vec<String>, a: &Vec<usize>, to_level: u32) -> (r: StrMap<String>)
    requires
        a@.len() <= ids@.len(),
        texts(ids@).no_duplicates(),
    ensures
        text_map(r@) == lift_assignment(texts(ids@), a@, to_level, a@.len()),
        r.keys() == texts(ids@).take(a@.len() as int),
{
    let ghost keys = texts(ids@);
    let mut r: StrMap<String> = StrMap::new();
    let mut i: usize = 0;
    assert(text_map(r@) =~= lift_assignment(keys, a@, to_level, 0));
    while i < a.len()
        invariant
            i <= a@.len(),
            a@.len() <= ids@.len(),
            keys == texts(ids@),
            keys.no_duplicates(),
            text_map(r@) == lift_assignment(keys, a@, to_level, i as nat),
            r.keys() == keys.take(i as int),
        decreases a@.len() - i,
    {
        let name = make_cluster_name(to_level, a[i]);
        proof {
            if r.keys().contains(ids@[i as int]@) {
                let j = choose|j: int| 0 <= j < r.keys().len() && r.keys()[j] == ids@[i as int]@;
                assert(keys[j] == keys[i as int]);
            }
        }
        let ghost before = r@;
        r.insert(ids[i].clone(), name);
        proof {
            assert(keys.take(i + 1) =~= keys.take(i as int).push(keys[i as int]));
            assert(keys[i as int] == ids@[i as int]@);
            assert(text_map(r@) =~= text_map(before).insert(ids@[i as int]@, cluster_name(to_level, a@[i as int])));
        }
        i = i + 1;
    }
    r
}

/// The lifted objects: each mapped object that exists becomes an object of
/// type "abstract" under its image, with its properties.
pub fn lift_objects(src: &StrMap<Object>, om: &StrMap<String>) -> (r: StrMap<Object>)
    ensures
        is_lifted_objects(r@, lifted_properties(src@, om.keys(), text_map(om@), om.keys().len())),
{
    proof {
        reveal_strlit("abstract");
    }
    let n = om.len();
    let ghost keys = om.keys();
    let ghost omv = text_map(om@);
    let mut r: StrMap<Object> = StrMap::new();
    assert(r@.dom() =~= lifted_properties(src@, keys, omv, 0).dom());
    let mut j: usize = 0;
    while j < n
        invariant
            j <= n,
            n == keys.len(),
            keys == om.keys(),
            omv == text_map(om@),
            is_lifted_objects(r@, lifted_properties(src@, keys, omv, j as nat)),
        decreases n - j,
    {
        let src_id = om.key_at(j);
        let tgt_id = om.value_at(j);
        let ghost before = r@;
        match src.get(src_id) {
            Some(obj) => {
                let lifted = Object {
                    id: tgt_id.clone(),
                    object_type: "abstract".to_owned(),
                    properties: obj.properties.copied(),
                };
                r.insert(tgt_id.clone(), lifted);
                proof {
                    let props = lifted_properties(src@, keys, omv, (j + 1) as nat);
                    assert(omv[keys[j as int]] == tgt_id@);
                    assert(props == lifted_properties(src@, keys, omv, j as nat).insert(tgt_id@, obj.properties@));
                    assert(r@.dom() =~= props.dom());
                }
            },
            None => {},
        }
        j = j + 1;
    }
    r
}

/// The morphisms whose two ends are mapped, carried along the map, in order.
pub fn lift_morphisms(ms: &Vec<Morphism>, om: &StrMap<String>) -> (r: Vec<Morphism>)
    ensures
        is_lifted_morphisms(r@, ms@, text_map(om@)),
{
    proof {
        reveal_strlit("lifted");
    }
    let ghost omv = text_map(om@);
    let mut r: Vec<Morphism> = Vec::new();
    let mut i: usize = 0;
    while i < ms.len()
        invariant
            i <= ms@.len(),
            omv == text_map(om@),
            r@.len() == lift_indices(ms@, omv, i as nat).len(),
            forall|k: int| 0 <= k < r@.len() ==> is_lifted_morphism(
                #[trigger] r@[k],
                ms@[lift_indices(ms@, omv, i as nat)[k]],
                omv,
            ),
        decreases ms@.len() - i,
    {
        let m = &ms[i];
        let ghost prev = lift_indices(ms@, omv, i as nat);
        let ghost before = r@;
        match (om.get(&m.source), om.get(&m.target)) {
            (Some(s), Some(t)) => {
                r.push(Morphism {
                    source: s.clone(),
                    target: t.clone(),
                    morphism_type: m.morphism_type.clone(),
                    strength: m.strength,
                    evidence: single_text("lifted"),
                    timestamp: m.timestamp,
                });
                proof {
                    assert(lift_indices(ms@, omv, (i + 1) as nat) == prev.push(i as int));
                    assert forall|k: int| 0 <= k < r@.len() implies is_lifted_morphism(
                        #[trigger] r@[k],
                        ms@[lift_indices(ms@, omv, (i + 1) as nat)[k]],
                        omv,
                    ) by {
                        if k < before.len() {
                            assert(r@[k] == before[k]);
                        }
                    }
                }
            },
            _ => {
                proof {
                    assert(lift_indices(ms@, omv, (i + 1) as nat) == prev);
                }
            },
        }
        i = i + 1;
    }
    r
}

} // verus!
