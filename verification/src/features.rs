//! Feature matrices: one row per object, one column per property name.

use vstd::prelude::*;
use crate::category::Category;
use crate::model::{Object, ZERO_BITS, texts};
use crate::strmap::StrMap;

verus! {

/// `cols` followed by those of `ks` that are not yet there, in the order of `ks`.
pub open spec fn add_new_keys(cols: Seq<Seq<char>>, ks: Seq<Seq<char>>) -> Seq<Seq<char>>
    decreases ks.len(),
{
    if ks.len() == 0 {
        cols
    } else {
        let c = add_new_keys(cols, ks.drop_last());
        if c.contains(ks.last()) {
            c
        } else {
            c.push(ks.last())
        }
    }
}

/// The property names of the objects at `ids`, each once, in the order in
/// which they first occur.
pub open spec fn property_columns(objs: Map<Seq<char>, Object>, ids: Seq<Seq<char>>) -> Seq<Seq<char>>
    decreases ids.len(),
{
    if ids.len() == 0 {
        Seq::empty()
    } else {
        add_new_keys(property_columns(objs, ids.drop_last()), objs[ids.last()].properties.keys())
    }
}

/// The value of property `c`, or 0.0 when the object lacks it.
pub open spec fn property_value(props: Map<Seq<char>, u64>, c: Seq<char>) -> u64 {
    if props.dom().contains(c) {
        props[c]
    } else {
        ZERO_BITS
    }
}

/// The row of an object: its value for each column.
pub open spec fn feature_row(obj: Object, cols: Seq<Seq<char>>) -> Seq<u64> {
    cols.map_values(|c: Seq<char>| property_value(obj.properties@, c))
}

/// Whether `ids` and `rows` are the feature matrix of `cat`: the object ids in
/// stored order, and for each the values of the property columns.
pub open spec fn is_feature_matrix(cat: Category, ids: Seq<String>, rows: Seq<Vec<u64>>) -> bool {
    let keys = cat.objects.keys();
    let cols = property_columns(cat.objects@, keys);
    &&& texts(ids) == keys
    &&& rows.len() == keys.len()
    &&& forall|i: int| 0 <= i < rows.len() ==> (#[trigger] rows[i])@ == feature_row(cat.objects@[keys[i]], cols)
}

/// Adding keys keeps the names distinct and adds exactly the new names.
pub proof fn lemma_add_new_keys(cols: Seq<Seq<char>>, ks: Seq<Seq<char>>)
    requires
        cols.no_duplicates(),
    ensures
        add_new_keys(cols, ks).no_duplicates(),
        add_new_keys(cols, ks).to_set() == cols.to_set() + ks.to_set(),
    decreases ks.len(),
{
    if ks.len() > 0 {
        lemma_add_new_keys(cols, ks.drop_last());
        let c = add_new_keys(cols, ks.drop_last());
        assert(ks =~= ks.drop_last().push(ks.last()));
        assert(ks.to_set() =~= ks.drop_last().to_set().insert(ks.last())) by {
            ks.drop_last().lemma_push_to_set_commute(ks.last());
        }
        if !c.contains(ks.last()) {
            assert(c.push(ks.last()).to_set() =~= c.to_set().insert(ks.last())) by {
                c.lemma_push_to_set_commute(ks.last());
            }
            assert forall|i: int, j: int| 0 <= i < j < c.push(ks.last()).len() implies c.push(ks.last())[i]
                != c.push(ks.last())[j] by {
                if j == c.len() {
                    assert(c[i] == c.push(ks.last())[i]);
                }
            }
        } else {
            assert(c.to_set().contains(ks.last()));
        }
        assert(add_new_keys(cols, ks).to_set() =~= cols.to_set() + ks.to_set());
    }
}

/// The property columns name each property of the objects at `ids` once.
pub proof fn lemma_property_columns(objs: Map<Seq<char>, Object>, ids: Seq<Seq<char>>)
    ensures
        property_columns(objs, ids).no_duplicates(),
        forall|c: Seq<char>| #[trigger] property_columns(objs, ids).contains(c) <==> exists|i: int|
            0 <= i < ids.len() && (#[trigger] objs[ids[i]]).properties.keys().contains(c),
    decreases ids.len(),
{
    if ids.len() > 0 {
        let prev = property_columns(objs, ids.drop_last());
        let ks = objs[ids.last()].properties.keys();
        lemma_property_columns(objs, ids.drop_last());
        lemma_add_new_keys(prev, ks);
        let cur = property_columns(objs, ids);
        assert forall|c: Seq<char>| #[trigger] cur.contains(c) <==> exists|i: int|
            0 <= i < ids.len() && (#[trigger] objs[ids[i]]).properties.keys().contains(c) by {
            assert(cur.to_set().contains(c) == cur.contains(c));
            assert(prev.to_set().contains(c) == prev.contains(c));
            assert(ks.to_set().contains(c) == ks.contains(c));
            if cur.contains(c) {
                if prev.contains(c) {
                    let i = choose|i: int| 0 <= i < ids.drop_last().len()
                        && (#[trigger] objs[ids.drop_last()[i]]).properties.keys().contains(c);
                    assert(ids.drop_last()[i] == ids[i]);
                } else {
                    assert(objs[ids[ids.len() - 1]].properties.keys().contains(c));
                }
            }
            if exists|i: int| 0 <= i < ids.len() && (#[trigger] objs[ids[i]]).properties.keys().contains(c) {
                let i = choose|i: int| 0 <= i < ids.len() && (#[trigger] objs[ids[i]]).properties.keys().contains(c);
                if i < ids.len() - 1 {
                    assert(ids.drop_last()[i] == ids[i]);
                    assert(prev.contains(c));
                } else {
                    assert(ks.contains(c));
                }
            }
        }
    }
}

/// Whether `s` is among the texts of `v`.
fn contains_text(v: &Vec<String>, s: &String) -> (b: bool)
    ensures
        b == texts(v@).contains(s@),
{
    let mut i: usize = 0;
    while i < v.len()
        invariant
            i <= v@.len(),
            forall|j: int| 0 <= j < i ==> v@[j]@ != s@,
        decreases v@.len() - i,
    {
        if v[i] == *s {
            assert(texts(v@)[i as int] == s@);
            return true;
        }
        i = i + 1;
    }
    proof {
        if texts(v@).contains(s@) {
            let j = choose|j: int| 0 <= j < texts(v@).len() && texts(v@)[j] == s@;
            assert(v@[j]@ == s@);
        }
    }
    false
}

/// Appends the keys of `ks` that `cols` lacks, in the order of `ks`.
fn append_new_keys(cols: &mut Vec<String>, ks: &StrMap<u64>)
    ensures
        texts(final(cols)@) == add_new_keys(texts(old(cols)@), ks.keys()),
{
    let n = ks.len();
    let ghost start = texts(cols@);
    let ghost keys = ks.keys();
    let mut j: usize = 0;
    while j < n
        invariant
            j <= n,
            n == keys.len(),
            keys == ks.keys(),
            texts(cols@) == add_new_keys(start, keys.take(j as int)),
        decreases n - j,
    {
        let k = ks.key_at(j);
        let ghost before = cols@;
        if !contains_text(cols, k) {
            cols.push(k.clone());
            assert(texts(cols@) =~= texts(before).push(k@));
        }
        proof {
            assert(keys.take(j + 1).drop_last() =~= keys.take(j as int));
            assert(keys.take(j + 1).last() == keys[j as int]);
        }
        j = j + 1;
    }
    assert(keys.take(n as int) =~= keys);
}

/// The property columns of the objects, in stored order.
fn columns_of(objects: &StrMap<Object>) -> (cols: Vec<String>)
    ensures
        texts(cols@) == property_columns(objects@, objects.keys()),
{
    let n = objects.len();
    let ghost keys = objects.keys();
    let mut cols: Vec<String> = Vec::new();
    assert(texts(cols@) =~= Seq::<Seq<char>>::empty());
    let mut i: usize = 0;
    while i < n
        invariant
            i <= n,
            n == keys.len(),
            keys == objects.keys(),
            texts(cols@) == property_columns(objects@, keys.take(i as int)),
        decreases n - i,
    {
        let obj = objects.value_at(i);
        append_new_keys(&mut cols, &obj.properties);
        proof {
            assert(keys.take(i + 1).drop_last() =~= keys.take(i as int));
            assert(keys.take(i + 1).last() == keys[i as int]);
        }
        i = i + 1;
    }
    assert(keys.take(n as int) =~= keys);
    cols
}

/// The row of one object for the given columns.
fn row_of(obj: &Object, cols: &Vec<String>) -> (row: Vec<u64>)
    ensures
        row@ == feature_row(*obj, texts(cols@)),
{
    let mut row: Vec<u64> = Vec::new();
    let mut j: usize = 0;
    while j < cols.len()
        invariant
            j <= cols@.len(),
            row@.len() == j,
            forall|k: int| 0 <= k < j ==> #[trigger] row@[k] == property_value(obj.properties@, cols@[k]@),
        decreases cols@.len() - j,
    {
        let v = match obj.properties.get(&cols[j]) {
            Some(v) => *v,
            None => ZERO_BITS,
        };
        row.push(v);
        j = j + 1;
    }
    assert(row@ =~= feature_row(*obj, texts(cols@)));
    row
}

/// The feature matrix of a category: its object ids and their rows.
pub fn feature_matrix(cat: &Category) -> (r: (Vec<String>, Vec<Vec<u64>>))
    ensures
        is_feature_matrix(*cat, r.0@, r.1@),
{
    let cols = columns_of(&cat.objects);
    let n = cat.objects.len();
    let ghost keys = cat.objects.keys();
    let mut ids: Vec<String> = Vec::new();
    let mut rows: Vec<Vec<u64>> = Vec::new();
    let mut i: usize = 0;
    while i < n
        invariant
            i <= n,
            n == keys.len(),
            keys == cat.objects.keys(),
            texts(cols@) == property_columns(cat.objects@, keys),
            ids@.len() == i,
            rows@.len() == i,
            forall|j: int| 0 <= j < i ==> (#[trigger] ids@[j])@ == keys[j],
            forall|j: int| 0 <= j < i ==> (#[trigger] rows@[j])@ == feature_row(cat.objects@[keys[j]], texts(cols@)),
        decreases n - i,
    {
        let id = cat.objects.key_at(i);
        let obj = cat.objects.value_at(i);
        ids.push(id.clone());
        rows.push(row_of(obj, &cols));
        i = i + 1;
    }
    assert(texts(ids@) =~= keys);
    (ids, rows)
}

} // verus!
