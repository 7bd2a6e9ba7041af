use categorical_core::category::{morphism_fields, Category};
use categorical_core::model::{FieldValue, Morphism, Object};
use categorical_core::process::{process_fields, ProcessCategory, StochasticMorphism};
use categorical_core::strmap::StrMap;

fn bits(x: f64) -> u64 {
    x.to_bits()
}

fn multiply(a: u64, b: u64) -> u64 {
    (f64::from_bits(a) * f64::from_bits(b)).to_bits()
}

fn object(id: &str, props: &[(&str, f64)]) -> Object {
    let mut properties: StrMap<u64> = StrMap::new();
    for (k, v) in props {
        properties.insert(k.to_string(), bits(*v));
    }
    Object { id: id.to_string(), object_type: "concrete".to_string(), properties }
}

fn morphism(s: &str, t: &str, ty: &str, strength: f64, ts: Option<f64>) -> Morphism {
    Morphism {
        source: s.to_string(),
        target: t.to_string(),
        morphism_type: ty.to_string(),
        strength: bits(strength),
        evidence: vec!["seen".to_string()],
        timestamp: ts.map(bits),
    }
}

fn process(s: &str, t: &str, ty: &str, p: f64, ts: Option<f64>) -> StochasticMorphism {
    StochasticMorphism {
        source: s.to_string(),
        target: t.to_string(),
        morphism_type: ty.to_string(),
        probability: bits(p),
        evidence: vec![],
        timestamp: ts.map(bits),
    }
}

fn text(v: Option<&FieldValue>) -> String {
    match v {
        Some(FieldValue::Text(s)) => s.clone(),
        _ => panic!("not text"),
    }
}

fn number(v: Option<&FieldValue>) -> u64 {
    match v {
        Some(FieldValue::Number(n)) => *n,
        _ => panic!("not a number"),
    }
}

fn key(s: &str) -> String {
    s.to_string()
}

#[test]
fn new_category_is_empty() {
    let c = Category::new("base".to_string());
    assert_eq!(c.name, "base");
    assert_eq!(c.objects.len(), 0);
    assert!(c.morphisms.is_empty());
    assert!(c.get_object_ids().is_empty());
}

#[test]
fn batch_of_objects_last_one_wins() {
    let mut c = Category::new("c".to_string());
    c.add_objects_batch(vec![object("a", &[("x", 1.0)]), object("b", &[]), object("a", &[("x", 2.0)])]);
    assert_eq!(c.get_object_ids(), vec![key("a"), key("b")]);
    let a = c.objects.get(&key("a")).unwrap();
    assert_eq!(a.properties.get(&key("x")), Some(&bits(2.0)));
    c.add_objects_batch(vec![object("c", &[])]);
    assert_eq!(c.get_object_ids(), vec![key("a"), key("b"), key("c")]);
}

#[test]
fn batch_of_morphisms_appends() {
    let mut c = Category::new("c".to_string());
    c.add_morphisms_batch(vec![morphism("a", "b", "r", 0.5, None)]);
    c.add_morphisms_batch(vec![morphism("b", "c", "r", 0.25, Some(3.0)), morphism("c", "a", "s", 1.0, None)]);
    assert_eq!(c.morphisms.len(), 3);
    assert_eq!(c.morphisms[0].source, "a");
    assert_eq!(c.morphisms[1].source, "b");
    assert_eq!(c.morphisms[2].morphism_type, "s");
}

#[test]
fn stats_count_objects_and_morphisms() {
    let mut c = Category::new("c".to_string());
    c.add_objects_batch(vec![object("a", &[]), object("b", &[]), object("a", &[])]);
    c.add_morphisms_batch(vec![morphism("a", "b", "r", 0.5, None)]);
    let s = c.stats();
    assert_eq!(s.len(), 2);
    assert_eq!(s.get(&key("objects")), Some(&2));
    assert_eq!(s.get(&key("morphisms")), Some(&1));
}

#[test]
fn clear_empties_and_stats_are_zero() {
    let mut c = Category::new("c".to_string());
    c.add_objects_batch(vec![object("a", &[])]);
    c.add_morphisms_batch(vec![morphism("a", "a", "id", 1.0, None)]);
    c.clear();
    assert_eq!(c.name, "c");
    let s = c.stats();
    assert_eq!(s.get(&key("objects")), Some(&0));
    assert_eq!(s.get(&key("morphisms")), Some(&0));
}

#[test]
fn morphism_records() {
    let mut c = Category::new("c".to_string());
    c.add_morphisms_batch(vec![morphism("a", "b", "causes", 0.75, Some(12.5)), morphism("b", "a", "blocks", 0.1, None)]);
    let recs = c.get_morphisms();
    assert_eq!(recs.len(), 2);
    assert_eq!(recs[0].len(), 5);
    assert_eq!(text(recs[0].get(&key("source"))), "a");
    assert_eq!(text(recs[0].get(&key("target"))), "b");
    assert_eq!(text(recs[0].get(&key("type"))), "causes");
    assert_eq!(number(recs[0].get(&key("strength"))), bits(0.75));
    assert_eq!(number(recs[0].get(&key("timestamp"))), bits(12.5));
    // a missing timestamp is reported as 0.0
    assert_eq!(number(recs[1].get(&key("timestamp"))), bits(0.0));
    let one = morphism_fields(&c.morphisms[1]);
    assert_eq!(text(one.get(&key("type"))), "blocks");
}

#[test]
fn compose_matching_processes() {
    let pc = ProcessCategory::new("p".to_string());
    let p1 = process("a", "b", "walk", 0.5, None);
    let p2 = process("b", "c", "run", 0.4, Some(7.0));
    let c = pc.compose(&p1, &p2, &multiply).unwrap();
    assert_eq!(c.source, "a");
    assert_eq!(c.target, "c");
    assert_eq!(c.morphism_type, "walk;run");
    assert_eq!(c.probability, bits(0.5 * 0.4));
    assert_eq!(c.evidence, vec![key("composed")]);
    assert_eq!(c.timestamp, Some(bits(7.0)));
    let p3 = process("a", "b", "x", 1.0, Some(1.0));
    let c2 = pc.compose(&p3, &p2, &multiply).unwrap();
    // the first timestamp wins
    assert_eq!(c2.timestamp, Some(bits(1.0)));
}

#[test]
fn compose_refuses_disconnected_processes() {
    let pc = ProcessCategory::new("p".to_string());
    let p1 = process("a", "b", "walk", 0.5, None);
    let p2 = process("c", "d", "run", 0.4, None);
    assert!(pc.compose(&p1, &p2, &multiply).is_none());
    assert!(pc.compose(&p2, &p1, &multiply).is_none());
}

#[test]
fn composition_is_associative_on_ends_and_type() {
    let pc = ProcessCategory::new("p".to_string());
    let p1 = process("a", "b", "x", 0.5, None);
    let p2 = process("b", "c", "y", 0.5, Some(2.0));
    let p3 = process("c", "d", "z", 0.5, Some(3.0));
    let left = pc.compose(&pc.compose(&p1, &p2, &multiply).unwrap(), &p3, &multiply).unwrap();
    let right = pc.compose(&p1, &pc.compose(&p2, &p3, &multiply).unwrap(), &multiply).unwrap();
    assert_eq!(left.source, right.source);
    assert_eq!(left.target, right.target);
    assert_eq!(left.morphism_type, "x;y;z");
    assert_eq!(right.morphism_type, "x;y;z");
    assert_eq!(left.evidence, right.evidence);
    assert_eq!(left.timestamp, right.timestamp);
}

#[test]
fn two_step_processes_in_pair_order() {
    let mut pc = ProcessCategory::new("p".to_string());
    pc.processes = vec![
        process("a", "b", "ab", 0.5, None),
        process("b", "c", "bc", 0.5, None),
        process("c", "a", "ca", 0.5, None),
        process("b", "b", "bb", 1.0, None),
    ];
    let two = pc.find_two_step_processes(&multiply);
    let types: Vec<String> = two.iter().map(|p| p.morphism_type.clone()).collect();
    assert_eq!(types, vec!["ab;bc", "ab;bb", "bc;ca", "ca;ab", "bb;bc", "bb;bb"]);
    assert_eq!(two[0].probability, bits(0.25));
    let empty = ProcessCategory::new("e".to_string());
    assert!(empty.find_two_step_processes(&multiply).is_empty());
}

#[test]
fn process_record_fields() {
    let r = process_fields(process("a", "b", "t", 0.3, None));
    assert_eq!(r.len(), 4);
    assert_eq!(text(r.get(&key("source"))), "a");
    assert_eq!(text(r.get(&key("target"))), "b");
    assert_eq!(text(r.get(&key("morphism_type"))), "t");
    assert_eq!(number(r.get(&key("probability"))), bits(0.3));
}
