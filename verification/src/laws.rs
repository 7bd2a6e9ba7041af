//! Properties that relate several operations of the library.

use vstd::prelude::*;
use crate::category::{Category, insert_objects, stats_map};
use crate::lift::{lift_assignment, lifted_properties, is_lifted_objects, is_lifted_morphisms, lift_indices, lemma_lift_indices};
use crate::model::{Morphism, Object, Functor, texts};
use crate::natural::{components_fit, naturality_outcome, naturality_square, is_first_arrow, lemma_first_arrow_unique};
use crate::hierarchy::{is_comparison, process_of};
use crate::natural::component_record;
use crate::features::{is_feature_matrix, property_columns};
use crate::model::{FieldValue, ZERO_BITS};
use crate::process::{StochasticMorphism, composable, composable_pairs, row_pairs, is_composite};
use crate::hierarchy::Hierarchy;
use crate::lift::cluster_name;
use crate::text::{decimal, lemma_decimal_injective};

verus! {

/// Composition is associative in everything but the probability: composing
/// three processes either way gives the same ends, type, evidence and timestamp.
pub proof fn law_compose_associative<F: Fn(u64, u64) -> u64>(
    p1: StochasticMorphism,
    p2: StochasticMorphism,
    p3: StochasticMorphism,
    c12: StochasticMorphism,
    c23: StochasticMorphism,
    left: StochasticMorphism,
    right: StochasticMorphism,
    combine: F,
)
    requires
        is_composite(c12, p1, p2, combine),
        is_composite(left, c12, p3, combine),
        is_composite(c23, p2, p3, combine),
        is_composite(right, p1, c23, combine),
    ensures
        left.source@ == right.source@,
        left.target@ == right.target@,
        left.morphism_type@ == right.morphism_type@,
        texts(left.evidence@) == texts(right.evidence@),
        left.timestamp == right.timestamp,
{
    assert(left.morphism_type@ =~= right.morphism_type@);
}

proof fn lemma_row_pairs_complete(ps: Seq<StochasticMorphism>, i: int, j: int, n: nat)
    requires
        0 <= j < n,
        composable(ps[i], ps[j]),
    ensures
        row_pairs(ps, i, n).contains((i, j)),
    decreases n,
{
    let prev = row_pairs(ps, i, (n - 1) as nat);
    if j == n - 1 {
        assert(row_pairs(ps, i, n) == prev.push((i, j)));
        assert(row_pairs(ps, i, n)[prev.len() as int] == (i, j));
    } else {
        lemma_row_pairs_complete(ps, i, j, (n - 1) as nat);
        let k = choose|k: int| 0 <= k < prev.len() && prev[k] == (i, j);
        assert(row_pairs(ps, i, n)[k] == (i, j));
    }
}

/// The two-step search misses nothing: every pair of processes in which the
/// first ends where the second starts is among the composable pairs.
pub proof fn law_two_step_complete(ps: Seq<StochasticMorphism>, i: int, j: int)
    requires
        0 <= i < ps.len(),
        0 <= j < ps.len(),
        composable(ps[i], ps[j]),
    ensures
        composable_pairs(ps, ps.len()).contains((i, j)),
{
    lemma_pairs_complete(ps, i, j, ps.len());
}

proof fn lemma_pairs_complete(ps: Seq<StochasticMorphism>, i: int, j: int, n: nat)
    requires
        0 <= i < n,
        0 <= j < ps.len(),
        composable(ps[i], ps[j]),
    ensures
        composable_pairs(ps, n).contains((i, j)),
    decreases n,
{
    let prev = composable_pairs(ps, (n - 1) as nat);
    let row = row_pairs(ps, n - 1, ps.len());
    assert(composable_pairs(ps, n) == prev + row);
    if i == n - 1 {
        lemma_row_pairs_complete(ps, i, j, ps.len());
        let k = choose|k: int| 0 <= k < row.len() && row[k] == (i, j);
        assert((prev + row)[prev.len() + k] == (i, j));
    } else {
        lemma_pairs_complete(ps, i, j, (n - 1) as nat);
        let k = choose|k: int| 0 <= k < prev.len() && prev[k] == (i, j);
        assert((prev + row)[k] == (i, j));
    }
}

/// After a batch of objects is added, the id of an object that no later
/// object of the batch shares holds that object.
pub proof fn law_batch_last_wins(m: Map<Seq<char>, Object>, objs: Seq<Object>, i: int)
    requires
        0 <= i < objs.len(),
        forall|j: int| i < j < objs.len() ==> (#[trigger] objs[j]).id@ != objs[i].id@,
    ensures
        insert_objects(m, objs).dom().contains(objs[i].id@),
        insert_objects(m, objs)[objs[i].id@] == objs[i],
    decreases objs.len(),
{
    if i < objs.len() - 1 {
        let init = objs.drop_last();
        assert forall|j: int| i < j < init.len() implies (#[trigger] init[j]).id@ != init[i].id@ by {
            assert(init[j] == objs[j]);
        }
        law_batch_last_wins(m, init, i);
        assert(objs[objs.len() - 1].id@ != objs[i].id@);
        assert(init[i] == objs[i]);
    }
}

/// Adding a batch of objects leaves every id that the batch lacks as it was.
pub proof fn law_batch_keeps_others(m: Map<Seq<char>, Object>, objs: Seq<Object>, k: Seq<char>)
    requires
        forall|i: int| 0 <= i < objs.len() ==> (#[trigger] objs[i]).id@ != k,
    ensures
        insert_objects(m, objs).dom().contains(k) == m.dom().contains(k),
        m.dom().contains(k) ==> insert_objects(m, objs)[k] == m[k],
    decreases objs.len(),
{
    if objs.len() > 0 {
        let init = objs.drop_last();
        assert forall|i: int| 0 <= i < init.len() implies (#[trigger] init[i]).id@ != k by {
            assert(init[i] == objs[i]);
        }
        law_batch_keeps_others(m, init, k);
        assert(objs[objs.len() - 1].id@ != k);
    }
}

/// A cleared category reports no objects and no morphisms.
pub proof fn law_cleared_stats(c: Category)
    requires
        c.objects@ == Map::<Seq<char>, Object>::empty(),
        c.morphisms@ == Seq::<Morphism>::empty(),
    ensures
        stats_map(c.objects@.len(), c.morphisms@.len()) == map!["objects"@ => 0usize, "morphisms"@ => 0usize],
{
    assert(c.objects@.dom() =~= Set::<Seq<char>>::empty());
}

proof fn lemma_lift_assignment_dom(ids: Seq<Seq<char>>, a: Seq<usize>, to_level: u32, n: nat)
    requires
        n <= ids.len(),
    ensures
        forall|x: Seq<char>| #[trigger] lift_assignment(ids, a, to_level, n).dom().contains(x) <==> ids.take(
            n as int,
        ).contains(x),
    decreases n,
{
    if n > 0 {
        lemma_lift_assignment_dom(ids, a, to_level, (n - 1) as nat);
        let t0 = ids.take(n - 1);
        let t1 = ids.take(n as int);
        assert forall|x: Seq<char>| #[trigger] lift_assignment(ids, a, to_level, n).dom().contains(x) <==> t1.contains(x) by {
            assert(lift_assignment(ids, a, to_level, n) == lift_assignment(ids, a, to_level, (n - 1) as nat).insert(
                ids[n - 1],
                crate::lift::cluster_name(to_level, a[n - 1]),
            ));
            assert(lift_assignment(ids, a, to_level, (n - 1) as nat).dom().contains(x) <==> t0.contains(x));
            if x == ids[n - 1] {
                assert(t1[n - 1] == x);
            }
            if t1.contains(x) && x != ids[n - 1] {
                let j = choose|j: int| 0 <= j < t1.len() && t1[j] == x;
                assert(t0[j] == x);
            }
            if t0.contains(x) {
                let j = choose|j: int| 0 <= j < t0.len() && t0[j] == x;
                assert(t1[j] == x);
            }
        }
    }
}

proof fn lemma_lifted_dom(
    objs: Map<Seq<char>, Object>,
    om_keys: Seq<Seq<char>>,
    om: Map<Seq<char>, Seq<char>>,
    n: nat,
)
    requires
        n <= om_keys.len(),
    ensures
        forall|j: int|
            0 <= j < n && objs.dom().contains(#[trigger] om_keys[j]) ==> lifted_properties(objs, om_keys, om, n).dom().contains(
                om[om_keys[j]],
            ),
    decreases n,
{
    if n > 0 {
        lemma_lifted_dom(objs, om_keys, om, (n - 1) as nat);
    }
}

/// Lifting is closed: each assigned object is sent to an object of the lifted
/// category, and every lifted morphism runs between objects of it.
pub proof fn law_lift_closed(cat: Category, lifted: Category, a: Seq<usize>, to_level: u32)
    requires
        a.len() <= cat.objects.keys().len(),
        is_lifted_objects(
            lifted.objects@,
            lifted_properties(
                cat.objects@,
                cat.objects.keys().take(a.len() as int),
                lift_assignment(cat.objects.keys(), a, to_level, a.len()),
                a.len(),
            ),
        ),
        is_lifted_morphisms(
            lifted.morphisms@,
            cat.morphisms@,
            lift_assignment(cat.objects.keys(), a, to_level, a.len()),
        ),
    ensures
        forall|x: Seq<char>| #[trigger] lift_assignment(cat.objects.keys(), a, to_level, a.len()).dom().contains(x)
            ==> lifted.objects@.dom().contains(lift_assignment(cat.objects.keys(), a, to_level, a.len())[x]),
        forall|k: int| 0 <= k < lifted.morphisms@.len() ==> {
            &&& lifted.objects@.dom().contains((#[trigger] lifted.morphisms@[k]).source@)
            &&& lifted.objects@.dom().contains(lifted.morphisms@[k].target@)
        },
{
    let keys = cat.objects.keys();
    let n = a.len();
    let om = lift_assignment(keys, a, to_level, n);
    let om_keys = keys.take(n as int);
    cat.objects.lemma_dom();
    lemma_lift_assignment_dom(keys, a, to_level, n);
    lemma_lifted_dom(cat.objects@, om_keys, om, n);
    let props = lifted_properties(cat.objects@, om_keys, om, n);
    assert forall|x: Seq<char>| #[trigger] om.dom().contains(x) implies lifted.objects@.dom().contains(om[x]) by {
        let j = choose|j: int| 0 <= j < om_keys.len() && om_keys[j] == x;
        assert(keys[j] == x);
        assert(keys.contains(x));
        assert(cat.objects@.dom().contains(om_keys[j]));
        assert(props.dom().contains(om[om_keys[j]]));
    }
    lemma_lift_indices(cat.morphisms@, om, cat.morphisms@.len());
    assert forall|k: int| 0 <= k < lifted.morphisms@.len() implies {
        &&& lifted.objects@.dom().contains((#[trigger] lifted.morphisms@[k]).source@)
        &&& lifted.objects@.dom().contains(lifted.morphisms@[k].target@)
    } by {
        let i = lift_indices(cat.morphisms@, om, cat.morphisms@.len())[k];
        let m = cat.morphisms@[i];
        assert(om.dom().contains(m.source@));
        assert(om.dom().contains(m.target@));
    }
}

/// The transformation that compares two functors fits them: each component
/// runs from the first functor's image of its object to the second's.
pub proof fn law_comparison_fits(
    comps: Map<Seq<char>, Morphism>,
    ids: Set<Seq<char>>,
    m1: Map<Seq<char>, String>,
    m2: Map<Seq<char>, String>,
)
    requires
        is_comparison(comps, ids, m1, m2),
    ensures
        components_fit(comps, m1, m2),
{
}

/// Comparing a functor with itself gives squares whose two sides match: in
/// every naturality square the arrow under the target functor is the arrow
/// under the source functor, and the two components have the same strength.
pub proof fn law_identity_comparison_squares(
    comps: Map<Seq<char>, Morphism>,
    ids: Set<Seq<char>>,
    m: Map<Seq<char>, String>,
    src: Seq<Morphism>,
    tgt: Seq<Morphism>,
    x: Seq<char>,
    k: int,
    t: (u64, u64, u64, u64),
)
    requires
        is_comparison(comps, ids, m, m),
        naturality_square(comps, m, m, src, tgt, x, k, t),
    ensures
        t.0 == t.3,
        t.1 == t.2,
{
    let y = src[k].target@;
    let (a, b) = choose|a: int, b: int|
        {
            &&& is_first_arrow(tgt, m[x]@, m[y]@, a)
            &&& is_first_arrow(tgt, m[x]@, m[y]@, b)
            &&& t == (tgt[b].strength, comps[x].strength, comps[y].strength, tgt[a].strength)
        };
    lemma_first_arrow_unique(tgt, m[x]@, m[y]@, a, b);
    assert(comps.dom().contains(x));
    assert(comps.dom().contains(y));
}

/// The transformation comparing a functor with itself is natural whenever the
/// test of a square passes each square whose two sides are equal.
pub proof fn law_identity_comparison_natural<C: Fn(u64, u64, u64, u64) -> bool>(
    r: bool,
    comps: Map<Seq<char>, Morphism>,
    ids: Set<Seq<char>>,
    name: Seq<char>,
    functors: Map<Seq<char>, Functor>,
    src: Seq<Morphism>,
    tgt: Seq<Morphism>,
    commutes: C,
)
    requires
        functors.dom().contains(name),
        is_comparison(comps, ids, functors[name].object_map@, functors[name].object_map@),
        forall|a: u64, b: u64, ok: bool| call_ensures(commutes, (a, b, b, a), ok) ==> ok,
        naturality_outcome(r, comps, name, name, functors, src, tgt, commutes),
    ensures
        r,
{
    let m = functors[name].object_map@;
    law_comparison_fits(comps, ids, m, m);
    if !r {
        let (x, k, t) = choose|x: Seq<char>, k: int, t: (u64, u64, u64, u64)|
            #[trigger] naturality_square(comps, m, m, src, tgt, x, k, t) && call_ensures(commutes, t, false);
        law_identity_comparison_squares(comps, ids, m, src, tgt, x, k, t);
        assert(t == (t.0, t.1, t.1, t.0));
    }
}

/// Whether `a` is the first position of `ms` holding a morphism from `s` to `t`,
/// written out over the morphisms' ends.
pub open spec fn first_from_to(ms: Seq<Morphism>, s: Seq<char>, t: Seq<char>, a: int) -> bool {
    &&& 0 <= a < ms.len()
    &&& ms[a].source@ == s
    &&& ms[a].target@ == t
    &&& forall|j: int| 0 <= j < a ==> !(ms[j].source@ == s && ms[j].target@ == t)
}

/// The order in which a naturality square is judged. Take a component at `x`,
/// a source morphism at position `k` from `x` to `y` whose ends both functors
/// map and which has a component at `y`, the first target morphism `a` from
/// F(x) to F(y) under the source functor F, and the first target morphism `b`
/// from G(x) to G(y) under the target functor G. A true answer means `commutes`
/// accepted, in this order: the strength of `b`, of the component at `x`, of the
/// component at `y`, of `a`. So if `commutes` rejects that quadruple, the
/// transformation is not natural, whatever it says of the quadruple with `a`
/// and `b` exchanged.
pub proof fn law_square_order<C: Fn(u64, u64, u64, u64) -> bool>(
    r: bool,
    comps: Map<Seq<char>, Morphism>,
    source_functor: Seq<char>,
    target_functor: Seq<char>,
    functors: Map<Seq<char>, Functor>,
    src: Seq<Morphism>,
    tgt: Seq<Morphism>,
    commutes: C,
    x: Seq<char>,
    k: int,
    a: int,
    b: int,
)
    requires
        naturality_outcome(r, comps, source_functor, target_functor, functors, src, tgt, commutes),
        functors.dom().contains(source_functor),
        functors.dom().contains(target_functor),
        comps.dom().contains(x),
        0 <= k < src.len(),
        src[k].source@ == x,
        comps.dom().contains(src[k].target@),
        functors[source_functor].object_map@.dom().contains(x),
        functors[source_functor].object_map@.dom().contains(src[k].target@),
        functors[target_functor].object_map@.dom().contains(x),
        functors[target_functor].object_map@.dom().contains(src[k].target@),
        first_from_to(
            tgt,
            functors[source_functor].object_map@[x]@,
            functors[source_functor].object_map@[src[k].target@]@,
            a,
        ),
        first_from_to(
            tgt,
            functors[target_functor].object_map@[x]@,
            functors[target_functor].object_map@[src[k].target@]@,
            b,
        ),
    ensures
        r ==> call_ensures(
            commutes,
            (tgt[b].strength, comps[x].strength, comps[src[k].target@].strength, tgt[a].strength),
            true,
        ),
{
    let fmap = functors[source_functor].object_map@;
    let gmap = functors[target_functor].object_map@;
    let y = src[k].target@;
    let t = (tgt[b].strength, comps[x].strength, comps[y].strength, tgt[a].strength);
    assert(is_first_arrow(tgt, fmap[x]@, fmap[y]@, a));
    assert(is_first_arrow(tgt, gmap[x]@, gmap[y]@, b));
    assert(naturality_square(comps, fmap, gmap, src, tgt, x, k, t));
}

/// Lifting carries each morphism whose two ends are mapped, in order: the
/// lifted one runs between the images of its ends and keeps its type,
/// strength and timestamp.
pub proof fn law_lift_keeps_morphisms(ls: Seq<Morphism>, ms: Seq<Morphism>, om: Map<Seq<char>, Seq<char>>)
    requires
        is_lifted_morphisms(ls, ms, om),
    ensures
        ls.len() == lift_indices(ms, om, ms.len()).len(),
        forall|k: int| 0 <= k < ls.len() ==> {
            let m = ms[lift_indices(ms, om, ms.len())[k]];
            &&& om.dom().contains(m.source@)
            &&& om.dom().contains(m.target@)
            &&& (#[trigger] ls[k]).source@ == om[m.source@]
            &&& ls[k].target@ == om[m.target@]
            &&& ls[k].morphism_type@ == m.morphism_type@
            &&& ls[k].strength == m.strength
            &&& ls[k].timestamp == m.timestamp
        },
{
    lemma_lift_indices(ms, om, ms.len());
    assert forall|k: int| 0 <= k < ls.len() implies {
        let m = ms[lift_indices(ms, om, ms.len())[k]];
        &&& om.dom().contains(m.source@)
        &&& om.dom().contains(m.target@)
        &&& (#[trigger] ls[k]).source@ == om[m.source@]
        &&& ls[k].target@ == om[m.target@]
        &&& ls[k].morphism_type@ == m.morphism_type@
        &&& ls[k].strength == m.strength
        &&& ls[k].timestamp == m.timestamp
    } by {
        assert(crate::lift::is_lifted_morphism(ls[k], ms[lift_indices(ms, om, ms.len())[k]], om));
    }
}

/// A process category built from a level has, at each position, a process
/// that runs from the source to the target of the level's morphism at that
/// position, with its type, its strength as the probability, its evidence and
/// its timestamp.
pub proof fn law_processes_follow_morphisms(ps: Seq<StochasticMorphism>, ms: Seq<Morphism>)
    requires
        ps.len() == ms.len(),
        forall|i: int| 0 <= i < ms.len() ==> process_of(#[trigger] ps[i], ms[i]),
    ensures
        forall|i: int| 0 <= i < ms.len() ==> {
            &&& (#[trigger] ps[i]).source@ == ms[i].source@
            &&& ps[i].target@ == ms[i].target@
            &&& ps[i].morphism_type@ == ms[i].morphism_type@
            &&& ps[i].probability == ms[i].strength
            &&& ps[i].evidence@ == ms[i].evidence@
            &&& ps[i].timestamp == ms[i].timestamp
        },
{
    assert forall|i: int| 0 <= i < ms.len() implies {
        &&& (#[trigger] ps[i]).source@ == ms[i].source@
        &&& ps[i].target@ == ms[i].target@
        &&& ps[i].morphism_type@ == ms[i].morphism_type@
        &&& ps[i].probability == ms[i].strength
        &&& ps[i].evidence@ == ms[i].evidence@
        &&& ps[i].timestamp == ms[i].timestamp
    } by {
        assert(process_of(ps[i], ms[i]));
    }
}

/// The record of a component reports its own source as "source", its own
/// target as "target" and its strength as "strength", and nothing else.
pub proof fn law_component_record_fields(m: Morphism)
    ensures
        component_record(m).dom() == set!["source"@, "target"@, "strength"@],
        component_record(m)["source"@] == FieldValue::Text(m.source),
        component_record(m)["target"@] == FieldValue::Text(m.target),
        component_record(m)["strength"@] == FieldValue::Number(m.strength),
{
    reveal_strlit("source");
    reveal_strlit("target");
    reveal_strlit("strength");
    assert("source"@[0] != "target"@[0]);
    assert("source"@.len() != "strength"@.len());
    assert("target"@.len() != "strength"@.len());
    assert(component_record(m).dom() =~= set!["source"@, "target"@, "strength"@]);
}

/// Each cell of a feature matrix holds the object's own value of the column's
/// property, whatever that value is, and 0.0 exactly where the object lacks
/// the property.
pub proof fn law_feature_cells(cat: Category, ids: Seq<String>, rows: Seq<Vec<u64>>)
    requires
        is_feature_matrix(cat, ids, rows),
    ensures
        forall|i: int| 0 <= i < rows.len() ==> (#[trigger] rows[i])@.len() == property_columns(
            cat.objects@,
            cat.objects.keys(),
        ).len(),
        forall|i: int, j: int|
            #![trigger rows[i]@[j]]
            0 <= i < rows.len() && 0 <= j < property_columns(cat.objects@, cat.objects.keys()).len() ==> {
                let props = cat.objects@[cat.objects.keys()[i]].properties@;
                let c = property_columns(cat.objects@, cat.objects.keys())[j];
                &&& props.dom().contains(c) ==> rows[i]@[j] == props[c]
                &&& !props.dom().contains(c) ==> rows[i]@[j] == ZERO_BITS
            },
{
    let cols = property_columns(cat.objects@, cat.objects.keys());
    assert forall|i: int, j: int|
        #![trigger rows[i]@[j]]
        0 <= i < rows.len() && 0 <= j < cols.len() implies {
            let props = cat.objects@[cat.objects.keys()[i]].properties@;
            let c = cols[j];
            &&& props.dom().contains(c) ==> rows[i]@[j] == props[c]
            &&& !props.dom().contains(c) ==> rows[i]@[j] == ZERO_BITS
        } by {
        assert(rows[i]@ == crate::features::feature_row(cat.objects@[cat.objects.keys()[i]], cols));
    }
}

/// A transformation with no component is natural whenever both its functors
/// exist: there is nothing to fit and no square to check.
pub proof fn law_empty_transformation_natural<C: Fn(u64, u64, u64, u64) -> bool>(
    r: bool,
    source_functor: Seq<char>,
    target_functor: Seq<char>,
    functors: Map<Seq<char>, Functor>,
    src: Seq<Morphism>,
    tgt: Seq<Morphism>,
    commutes: C,
)
    requires
        functors.dom().contains(source_functor),
        functors.dom().contains(target_functor),
        naturality_outcome(
            r,
            Map::<Seq<char>, Morphism>::empty(),
            source_functor,
            target_functor,
            functors,
            src,
            tgt,
            commutes,
        ),
    ensures
        r,
{
    let fmap = functors[source_functor].object_map@;
    let gmap = functors[target_functor].object_map@;
    let comps = Map::<Seq<char>, Morphism>::empty();
    assert(components_fit(comps, fmap, gmap));
    if !r {
        let (x, k, t) = choose|x: Seq<char>, k: int, t: (u64, u64, u64, u64)|
            #[trigger] naturality_square(comps, fmap, gmap, src, tgt, x, k, t) && call_ensures(commutes, t, false);
        assert(!comps.dom().contains(x));
    }
}

/// A category added at a level is what the level then holds; the other
/// levels keep theirs.
pub proof fn law_category_read_back(before: Hierarchy, after: Hierarchy, level: u32, c: Category, other: u32)
    requires
        after.category_map() == before.category_map().insert(level, c),
        other != level,
    ensures
        after.category_map().dom().contains(level),
        after.category_map()[level] == c,
        after.category_map().dom().contains(other) == before.category_map().dom().contains(other),
        before.category_map().dom().contains(other) ==> after.category_map()[other] == before.category_map()[other],
{
}

/// Distinct clusters of one level are lifted to distinct objects.
pub proof fn law_distinct_clusters(level: u32, c1: usize, c2: usize)
    requires
        c1 != c2,
    ensures
        cluster_name(level, c1) != cluster_name(level, c2),
{
    let prefix = "L"@ + decimal(level as nat) + "_C"@;
    if cluster_name(level, c1) == cluster_name(level, c2) {
        assert(cluster_name(level, c1) == prefix + decimal(c1 as nat));
        assert(cluster_name(level, c2) == prefix + decimal(c2 as nat));
        assert(decimal(c1 as nat) =~= cluster_name(level, c1).skip(prefix.len() as int));
        assert(decimal(c2 as nat) =~= cluster_name(level, c2).skip(prefix.len() as int));
        lemma_decimal_injective(c1 as nat, c2 as nat);
    }
}

} // verus!
