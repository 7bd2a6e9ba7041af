use categorical_core::levelmap::LevelMap;
use categorical_core::model::{copy_strings, single_text, Functor, FunctorDirection};
use categorical_core::strmap::StrMap;
use categorical_core::text::{concat3, push_decimal, push_signed_decimal};

fn decimal_of(n: u64) -> String {
    let mut s = String::new();
    push_decimal(&mut s, n);
    s
}

fn signed_of(n: i64) -> String {
    let mut s = String::new();
    push_signed_decimal(&mut s, n);
    s
}

#[test]
fn decimal_rendering() {
    assert_eq!(decimal_of(0), "0");
    assert_eq!(decimal_of(7), "7");
    assert_eq!(decimal_of(42), "42");
    assert_eq!(decimal_of(1000), "1000");
    assert_eq!(decimal_of(u64::MAX), "18446744073709551615");
    let mut s = String::from("x=");
    push_decimal(&mut s, 305);
    assert_eq!(s, "x=305");
}

#[test]
fn signed_decimal_rendering() {
    assert_eq!(signed_of(0), "0");
    assert_eq!(signed_of(12), "12");
    assert_eq!(signed_of(-5), "-5");
    assert_eq!(signed_of(i64::MIN), "-9223372036854775808");
    assert_eq!(signed_of(i64::MAX), "9223372036854775807");
}

#[test]
fn concatenation() {
    assert_eq!(concat3("a", ";", "b"), "a;b");
    assert_eq!(concat3("", "", ""), "");
}

#[test]
fn string_list_helpers() {
    let v = vec!["a".to_string(), "b".to_string()];
    assert_eq!(copy_strings(&v), v);
    assert_eq!(single_text("composed"), vec!["composed".to_string()]);
}

#[test]
fn strmap_insert_get_and_order() {
    let mut m: StrMap<u64> = StrMap::new();
    assert_eq!(m.len(), 0);
    m.insert("b".to_string(), 2);
    m.insert("a".to_string(), 1);
    m.insert("b".to_string(), 20);
    assert_eq!(m.len(), 2);
    assert_eq!(m.get(&"b".to_string()), Some(&20));
    assert_eq!(m.get(&"a".to_string()), Some(&1));
    assert_eq!(m.get(&"c".to_string()), None);
    assert!(m.contains_key(&"a".to_string()));
    assert!(!m.contains_key(&"z".to_string()));
    // a replaced key keeps its place
    assert_eq!(m.keys_vec(), vec!["b".to_string(), "a".to_string()]);
    assert_eq!(m.key_at(0), "b");
    assert_eq!(*m.value_at(0), 20);
    let c = m.copied();
    assert_eq!(c.keys_vec(), m.keys_vec());
    assert_eq!(c.get(&"a".to_string()), Some(&1));
    m.clear();
    assert_eq!(m.len(), 0);
    assert_eq!(m.get(&"a".to_string()), None);
}

#[test]
fn levelmap_keeps_levels_ascending() {
    let mut m: LevelMap<&str> = LevelMap::new();
    m.insert(5, "five");
    m.insert(1, "one");
    m.insert(3, "three");
    m.insert(1, "uno");
    assert_eq!(m.levels_vec(), vec![1, 3, 5]);
    assert_eq!(m.get(1), Some(&"uno"));
    assert_eq!(m.get(3), Some(&"three"));
    assert_eq!(m.get(4), None);
    assert!(m.contains_key(5));
    assert!(!m.contains_key(0));
    m.insert(0, "zero");
    m.insert(u32::MAX, "max");
    assert_eq!(m.levels_vec(), vec![0, 1, 3, 5, u32::MAX]);
}

#[test]
fn endofunctor_test() {
    let endo = Functor {
        name: "e".to_string(),
        source_level: 2,
        target_level: 2,
        direction: FunctorDirection::Endo,
        object_map: StrMap::new(),
    };
    assert!(endo.is_endofunctor());
    let lift = Functor {
        name: "l".to_string(),
        source_level: 0,
        target_level: 1,
        direction: FunctorDirection::Lift,
        object_map: StrMap::new(),
    };
    assert!(!lift.is_endofunctor());
}
