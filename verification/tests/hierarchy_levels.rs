use categorical_core::category::Category;
use categorical_core::hierarchy::Hierarchy;
use categorical_core::model::{FieldValue, FunctorDirection, Morphism, Object, HALF_BITS};
use categorical_core::natural::{find_arrow, NaturalTransformation};
use categorical_core::strmap::StrMap;

fn bits(x: f64) -> u64 {
    x.to_bits()
}

fn multiply(a: u64, b: u64) -> u64 {
    (f64::from_bits(a) * f64::from_bits(b)).to_bits()
}

fn commutes(g: u64, ex: u64, ey: u64, f: u64) -> bool {
    let left = f64::from_bits(g) * f64::from_bits(ex);
    let right = f64::from_bits(ey) * f64::from_bits(f);
    !((left - right).abs() > 0.1)
}

fn key(s: &str) -> String {
    s.to_string()
}

fn object(id: &str, props: &[(&str, f64)]) -> Object {
    let mut properties: StrMap<u64> = StrMap::new();
    for (k, v) in props {
        properties.insert(k.to_string(), bits(*v));
    }
    Object { id: id.to_string(), object_type: "concrete".to_string(), properties }
}

fn morphism(s: &str, t: &str, strength: f64) -> Morphism {
    Morphism {
        source: s.to_string(),
        target: t.to_string(),
        morphism_type: "rel".to_string(),
        strength: bits(strength),
        evidence: vec!["seen".to_string()],
        timestamp: None,
    }
}

fn base_category() -> Category {
    let mut c = Category::new("base".to_string());
    c.add_objects_batch(vec![
        object("a", &[("x", 1.0), ("y", 2.0)]),
        object("b", &[("y", 3.0), ("z", 4.0)]),
        object("c", &[("x", 5.0)]),
    ]);
    c.add_morphisms_batch(vec![morphism("a", "b", 0.5), morphism("b", "c", 0.25), morphism("c", "d", 1.0)]);
    c
}

#[test]
fn levels_are_sorted_and_replaced() {
    let mut h = Hierarchy::new();
    assert!(h.get_levels().is_empty());
    h.add_category(5, Category::new("five".to_string()));
    h.add_category(1, Category::new("one".to_string()));
    h.add_category(3, Category::new("three".to_string()));
    h.add_category(1, base_category());
    assert_eq!(h.get_levels(), vec![1, 3, 5]);
    assert_eq!(h.get_category_object_ids(1), Some(vec![key("a"), key("b"), key("c")]));
    assert_eq!(h.get_category_object_ids(3), Some(vec![]));
    assert_eq!(h.get_category_object_ids(2), None);
}

#[test]
fn stats_and_morphisms_by_level() {
    let mut h = Hierarchy::new();
    h.add_category(0, base_category());
    let s = h.get_category_stats(0).unwrap();
    assert_eq!(s.get(&key("objects")), Some(&3));
    assert_eq!(s.get(&key("morphisms")), Some(&3));
    assert!(h.get_category_stats(9).is_none());
    let ms = h.get_category_morphisms(0).unwrap();
    assert_eq!(ms.len(), 3);
    assert!(h.get_category_morphisms(9).is_none());
}

#[test]
fn feature_matrix_fills_missing_with_zero() {
    let mut h = Hierarchy::new();
    h.add_category(0, base_category());
    h.add_category(1, Category::new("empty".to_string()));
    assert!(h.build_feature_matrix(7).is_none());
    assert!(h.build_feature_matrix(1).is_none());
    let (ids, rows) = h.build_feature_matrix(0).unwrap();
    assert_eq!(ids, vec![key("a"), key("b"), key("c")]);
    // columns x, y, z in order of first occurrence
    assert_eq!(rows[0], vec![bits(1.0), bits(2.0), bits(0.0)]);
    assert_eq!(rows[1], vec![bits(0.0), bits(3.0), bits(4.0)]);
    assert_eq!(rows[2], vec![bits(5.0), bits(0.0), bits(0.0)]);
}

#[test]
fn lift_request_errors() {
    let mut h = Hierarchy::new();
    h.add_category(0, base_category());
    h.add_category(2, Category::new("empty".to_string()));
    assert_eq!(h.lift_features(1, 1, 2).unwrap_err(), "Invalid levels or clusters");
    assert_eq!(h.lift_features(0, 1, 0).unwrap_err(), "Invalid levels or clusters");
    assert_eq!(h.lift_features(5, 6, 1).unwrap_err(), "No objects to lift");
    assert_eq!(h.lift_features(2, 3, 1).unwrap_err(), "No objects to lift");
    assert_eq!(h.lift_features(0, 1, 3).unwrap_err(), "Too many clusters");
    let (ids, rows) = h.lift_features(0, 1, 2).unwrap();
    assert_eq!(ids.len(), 3);
    assert_eq!(rows.len(), 3);
    assert_eq!(h.auto_lift(0, 1, 3, &vec![0, 0, 1]).unwrap_err(), "Too many clusters");
    assert_eq!(h.auto_lift(2, 1, 1, &vec![]).unwrap_err(), "Invalid levels or clusters");
    assert_eq!(h.get_levels(), vec![0, 2]);
}

#[test]
fn auto_lift_builds_cluster_category_and_functor() {
    let mut h = Hierarchy::new();
    h.add_category(0, base_category());
    h.auto_lift(0, 1, 2, &vec![0, 0, 1]).unwrap();
    assert_eq!(h.get_levels(), vec![0, 1]);
    assert_eq!(h.get_functor_names(), vec![key("lift_0_1")]);
    let ids = h.get_category_object_ids(1).unwrap();
    assert_eq!(ids, vec![key("L1_C0"), key("L1_C1")]);
    let recs = h.get_category_morphisms(1).unwrap();
    // c -> d is dropped: d is not an object of level 0
    assert_eq!(recs.len(), 2);
    let src = |i: usize| match recs[i].get(&key("source")) {
        Some(FieldValue::Text(s)) => s.clone(),
        _ => panic!(),
    };
    let tgt = |i: usize| match recs[i].get(&key("target")) {
        Some(FieldValue::Text(s)) => s.clone(),
        _ => panic!(),
    };
    assert_eq!((src(0), tgt(0)), (key("L1_C0"), key("L1_C0")));
    assert_eq!((src(1), tgt(1)), (key("L1_C0"), key("L1_C1")));
    // the later object of a cluster passes its properties on
    let (cids, rows) = h.build_feature_matrix(1).unwrap();
    assert_eq!(cids, vec![key("L1_C0"), key("L1_C1")]);
    // columns y, z (from L1_C0) then x (from L1_C1)
    assert_eq!(rows[0], vec![bits(3.0), bits(4.0), bits(0.0)]);
    assert_eq!(rows[1], vec![bits(0.0), bits(0.0), bits(5.0)]);
}

#[test]
fn temporal_endofunctor_is_identity() {
    let mut h = Hierarchy::new();
    assert_eq!(h.build_temporal_endofunctor(0, 1, 2).unwrap_err(), "Category not found");
    h.add_category(0, base_category());
    let name = h.build_temporal_endofunctor(0, -5, 10).unwrap();
    assert_eq!(name, "endo_t-5_10");
    assert_eq!(h.get_functor_names(), vec![key("endo_t-5_10")]);
    let nt = h.compare_functors("endo_t-5_10", "endo_t-5_10", 0).unwrap();
    assert_eq!(nt.components.len(), 3);
    let c = nt.components.get(&key("b")).unwrap();
    assert_eq!(c.source, "b");
    assert_eq!(c.target, "b");
}

#[test]
fn process_category_from_level() {
    let mut h = Hierarchy::new();
    assert_eq!(h.build_process_category(0).unwrap_err(), "Category not found");
    h.add_category(0, base_category());
    assert_eq!(h.build_process_category(0).unwrap(), "process_0");
    assert!(h.get_process_two_step(0, &multiply).is_none());
    let two = h.get_process_two_step(2000, &multiply).unwrap();
    // a->b then b->c, b->c then c->d
    assert_eq!(two.len(), 2);
    let ty = match two[0].get(&key("morphism_type")) {
        Some(FieldValue::Text(s)) => s.clone(),
        _ => panic!(),
    };
    assert_eq!(ty, "rel;rel");
    match two[0].get(&key("probability")) {
        Some(FieldValue::Number(p)) => assert_eq!(*p, bits(0.5 * 0.25)),
        _ => panic!(),
    }
}

#[test]
fn compare_functors_errors_and_components() {
    let mut h = Hierarchy::new();
    assert_eq!(h.compare_functors("f", "g", 0).unwrap_err(), "Category not found");
    h.add_category(0, base_category());
    assert_eq!(h.compare_functors("f", "g", 0).unwrap_err(), "Functor 1 not found");
    let f = h.build_temporal_endofunctor(0, 0, 1).unwrap();
    assert_eq!(h.compare_functors(&f, "g", 0).unwrap_err(), "Functor 2 not found");
    h.auto_lift(0, 1, 2, &vec![1, 0]).unwrap();
    let nt = h.compare_functors(&f, "lift_0_1", 0).unwrap();
    assert_eq!(nt.name, "endo_t0_1->lift_0_1");
    assert_eq!(nt.source_functor, "endo_t0_1");
    assert_eq!(nt.target_functor, "lift_0_1");
    // only a and b were assigned clusters
    assert_eq!(nt.components.keys_vec(), vec![key("a"), key("b")]);
    let ca = nt.components.get(&key("a")).unwrap();
    assert_eq!(ca.source, "a");
    assert_eq!(ca.target, "L1_C1");
    assert_eq!(ca.morphism_type, "natural_component");
    assert_eq!(ca.strength, HALF_BITS);
    assert_eq!(ca.strength, bits(0.5));
    assert_eq!(ca.evidence, vec![key("auto")]);
    assert_eq!(ca.timestamp, None);
}

fn naturality_setup() -> Hierarchy {
    let mut h = Hierarchy::new();
    let mut c0 = Category::new("c0".to_string());
    c0.add_objects_batch(vec![object("a", &[]), object("b", &[])]);
    c0.add_morphisms_batch(vec![morphism("a", "b", 1.0)]);
    h.add_category(0, c0);
    h.build_temporal_endofunctor(0, 0, 0).unwrap();
    h
}

#[test]
fn naturality_of_identity_components() {
    let h = naturality_setup();
    let mut nt = NaturalTransformation::new(key("id"), key("endo_t0_0"), key("endo_t0_0"));
    nt.add_component(key("a"), key("a"), key("a"), bits(1.0));
    nt.add_component(key("b"), key("b"), key("b"), bits(1.0));
    // level 1 is missing
    assert_eq!(nt.is_natural_in(&h, &commutes).unwrap_err(), "Target category not found");
    let empty = Hierarchy::new();
    assert_eq!(nt.is_natural_in(&empty, &commutes).unwrap_err(), "Source category not found");
    let mut h2 = naturality_setup();
    let mut c1 = Category::new("c1".to_string());
    c1.add_morphisms_batch(vec![morphism("a", "b", 1.0)]);
    h2.add_category(1, c1);
    assert_eq!(nt.is_natural_in(&h2, &commutes), Ok(true));
    // a component strength that breaks the square
    nt.add_component(key("b"), key("b"), key("b"), bits(2.0));
    assert_eq!(nt.is_natural_in(&h2, &commutes), Ok(false));
}

#[test]
fn naturality_structural_failures() {
    let mut h = naturality_setup();
    h.add_category(1, Category::new("c1".to_string()));
    let mut nt = NaturalTransformation::new(key("n"), key("endo_t0_0"), key("missing"));
    assert_eq!(nt.is_natural_in(&h, &commutes), Ok(false));
    nt.target_functor = key("endo_t0_0");
    nt.add_component(key("a"), key("a"), key("b"), bits(1.0));
    // the component does not end at the image of its object
    assert_eq!(nt.is_natural_in(&h, &commutes), Ok(false));
    let mut nt2 = NaturalTransformation::new(key("n2"), key("endo_t0_0"), key("endo_t0_0"));
    nt2.add_component(key("zz"), key("zz"), key("zz"), bits(1.0));
    // the functors do not map zz
    assert_eq!(nt2.is_natural_in(&h, &commutes), Ok(false));
    // no component: natural
    let nt3 = NaturalTransformation::new(key("n3"), key("endo_t0_0"), key("endo_t0_0"));
    assert_eq!(nt3.is_natural_in(&h, &commutes), Ok(true));
}

#[test]
fn compared_functors_are_natural_when_squares_commute() {
    let mut h = naturality_setup();
    let mut c1 = Category::new("c1".to_string());
    c1.add_morphisms_batch(vec![morphism("a", "b", 1.0)]);
    h.add_category(1, c1);
    let nt = h.compare_functors("endo_t0_0", "endo_t0_0", 0).unwrap();
    // 1.0 * 0.5 against 0.5 * 1.0
    assert_eq!(nt.is_natural_in(&h, &commutes), Ok(true));
    assert_eq!(nt.is_natural_in(&h, &|_, _, _, _| false), Ok(false));
}

#[test]
fn components_records() {
    let mut nt = NaturalTransformation::new(key("n"), key("f"), key("g"));
    nt.add_component(key("x"), key("fx"), key("gx"), bits(0.3));
    nt.add_component(key("y"), key("fy"), key("gy"), bits(0.6));
    let c = nt.components.get(&key("x")).unwrap();
    assert_eq!(c.morphism_type, "natural_component");
    assert!(c.evidence.is_empty());
    let recs = nt.get_components();
    assert_eq!(recs.len(), 2);
    assert_eq!(recs[0].0, "x");
    assert_eq!(recs[1].0, "y");
    assert_eq!(recs[1].1.get(&key("target")).map(|v| matches!(v, FieldValue::Text(s) if s == "gy")), Some(true));
    assert_eq!(recs[1].1.get(&key("strength")).map(|v| matches!(v, FieldValue::Number(n) if *n == bits(0.6))), Some(true));
}

#[test]
fn first_arrow_search() {
    let ms = vec![morphism("a", "b", 0.1), morphism("b", "c", 0.2), morphism("a", "b", 0.3)];
    assert_eq!(find_arrow(&ms, &key("a"), &key("b")), Some(0));
    assert_eq!(find_arrow(&ms, &key("b"), &key("c")), Some(1));
    assert_eq!(find_arrow(&ms, &key("c"), &key("a")), None);
}

#[test]
fn natural_transformations_are_recorded() {
    let mut h = Hierarchy::new();
    h.add_natural_transformation(NaturalTransformation::new(key("n"), key("f"), key("g")));
    h.add_natural_transformation(NaturalTransformation::new(key("n"), key("f2"), key("g2")));
    assert!(h.get_functor_names().is_empty());
    let _ = FunctorDirection::Project;
}

#[test]
fn lift_names_use_decimal_levels_and_clusters() {
    let mut h = Hierarchy::new();
    h.add_category(3, base_category());
    h.auto_lift(3, 12, 2, &vec![10, 7, 10]).unwrap();
    assert_eq!(h.get_levels(), vec![3, 12]);
    assert_eq!(h.get_functor_names(), vec![key("lift_3_12")]);
    // distinct clusters give distinct objects, a shared cluster one object
    assert_eq!(h.get_category_object_ids(12), Some(vec![key("L12_C10"), key("L12_C7")]));
    let s = h.get_category_stats(12).unwrap();
    assert_eq!(s.get(&key("objects")), Some(&2));
    // the level 3 category is untouched
    assert_eq!(h.get_category_object_ids(3), Some(vec![key("a"), key("b"), key("c")]));
}
