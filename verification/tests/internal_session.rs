use jude_web::middleware::session::internal::{Session, SessionMap};
use jude_web::store::OrInsert;

fn s(x: &str) -> String {
    x.to_string()
}

#[test]
fn internal_insert_get_remove() {
    let mut m = SessionMap::new();
    let mut sess = Session::new(&mut m);
    assert_eq!(sess.insert(s("a"), 1u8, s("1")), None);
    assert_eq!(sess.insert(s("a"), 2u8, s("2")), Some(2));
    assert_eq!(sess.get(s("a")), Some(&s("2")));
    assert_eq!(sess.remove(s("a")), Some(s("2")));
    assert_eq!(sess.remove(s("a")), None);
    assert_eq!(sess.get(s("a")), None);
}

#[test]
fn internal_remove_underscore_and_clear() {
    let mut m = SessionMap::new();
    {
        let mut sess = Session::new(&mut m);
        sess.insert(s("a"), (), s("null"));
        sess.insert(s("b"), (), s("null"));
        sess.remove_(s("a"));
        assert_eq!(sess.get(s("a")), None);
        assert_eq!(sess.get(s("b")), Some(&s("null")));
        sess.clear();
        assert_eq!(sess.get(s("b")), None);
    }
    assert_eq!(m.len(), 0);
}

#[test]
fn internal_entry() {
    let mut m = SessionMap::new();
    let mut sess = Session::new(&mut m);
    assert!(matches!(sess.entry(s("x")).or_insert(1u8, s("1")), OrInsert::Inserted(1)));
    match sess.entry(s("x")).or_insert(2u8, s("2")) {
        OrInsert::Stored(t) => assert_eq!(t, "1"),
        OrInsert::Inserted(_) => panic!("occupied entry"),
    }
    match sess.entry(s("y")).or_insert_with(|| (4u8, s("4"))) {
        OrInsert::Inserted(v) => assert_eq!(v, 4),
        OrInsert::Stored(_) => panic!("vacant entry"),
    }
    assert_eq!(sess.get(s("y")), Some(&s("4")));
}
