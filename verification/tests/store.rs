use jude_web::store::StrMap;

fn s(x: &str) -> String {
    x.to_string()
}

#[test]
fn store_insert_then_get() {
    let mut m: StrMap<u32> = StrMap::new();
    assert_eq!(m.len(), 0);
    assert_eq!(m.insert(s("a"), 1), None);
    assert_eq!(m.insert(s("b"), 2), None);
    assert_eq!(m.get(&s("a")), Some(&1));
    assert_eq!(m.get(&s("b")), Some(&2));
    assert_eq!(m.get(&s("c")), None);
    assert_eq!(m.len(), 2);
}

#[test]
fn store_insert_replaces_and_returns_old() {
    let mut m: StrMap<u32> = StrMap::new();
    m.insert(s("a"), 1);
    assert_eq!(m.insert(s("a"), 7), Some(1));
    assert_eq!(m.get(&s("a")), Some(&7));
    assert_eq!(m.len(), 1);
}

#[test]
fn store_remove_and_clear() {
    let mut m: StrMap<u32> = StrMap::new();
    m.insert(s("a"), 1);
    m.insert(s("b"), 2);
    assert_eq!(m.remove(&s("a")), Some(1));
    assert_eq!(m.remove(&s("a")), None);
    assert!(!m.contains_key(&s("a")));
    assert!(m.contains_key(&s("b")));
    assert_eq!(m.len(), 1);
    m.clear();
    assert_eq!(m.len(), 0);
    assert_eq!(m.get(&s("b")), None);
}

#[test]
fn store_from_entries() {
    let m = StrMap::from_entries(vec![(s("x"), 10u8), (s("y"), 20u8)]);
    assert_eq!(m.len(), 2);
    assert_eq!(m.get(&s("y")), Some(&20));
    assert_eq!(m.entries().len(), 2);
}
