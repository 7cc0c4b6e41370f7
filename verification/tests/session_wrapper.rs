use jude_web::middlewares::session::session_wrapper::{EntryWrapper, SessionMap, SessionWrapper};
use jude_web::store::OrInsert;

fn s(x: &str) -> String {
    x.to_string()
}

#[test]
fn wrapper_insert_hands_back_new_value_only_when_key_existed() {
    let mut m = SessionMap::new();
    {
        let mut w = SessionWrapper::new(&mut m);
        assert_eq!(w.insert(s("k"), 5u32, b"5".to_vec()), None);
        assert_eq!(w.insert(s("k"), 6u32, b"6".to_vec()), Some(6));
        assert_eq!(w.get(s("k")), Some(&b"6".to_vec()));
        assert_eq!(w.get(s("other")), None);
    }
    assert_eq!(m.get(&s("k")), Some(&b"6".to_vec()));
}

#[test]
fn wrapper_entry_or_insert() {
    let mut m = SessionMap::new();
    {
        let mut w = SessionWrapper::new(&mut m);
        match w.entry(s("name")).or_insert(s("Jude"), b"\"Jude\"".to_vec()) {
            OrInsert::Inserted(v) => assert_eq!(v, "Jude"),
            OrInsert::Stored(_) => panic!("vacant entry"),
        }
        match w.entry(s("name")).or_insert(s("Other"), b"\"Other\"".to_vec()) {
            OrInsert::Stored(b) => assert_eq!(b, b"\"Jude\"".to_vec()),
            OrInsert::Inserted(_) => panic!("occupied entry"),
        }
    }
    assert_eq!(m.get(&s("name")), Some(&b"\"Jude\"".to_vec()));
    assert_eq!(m.len(), 1);
}

#[test]
fn wrapper_entry_or_insert_with_calls_only_when_vacant() {
    let mut m = SessionMap::new();
    let mut w = SessionWrapper::new(&mut m);
    match w.entry(s("n")).or_insert_with(|| (3u8, b"3".to_vec())) {
        OrInsert::Inserted(v) => assert_eq!(v, 3),
        OrInsert::Stored(_) => panic!("vacant entry"),
    }
    match w.entry(s("n")).or_insert_with(|| -> (u8, Vec<u8>) { panic!("must not be called") }) {
        OrInsert::Stored(b) => assert_eq!(b, b"3".to_vec()),
        OrInsert::Inserted(_) => panic!("occupied entry"),
    }
}

#[test]
fn wrapper_entry_validity() {

    let mut m = SessionMap::new();
    m.insert(s("k"), vec![1]);
    assert!(EntryWrapper::Occupied(&mut m, s("k")).is_valid());
    assert!(!EntryWrapper::Vacant(&mut m, s("k")).is_valid());
    assert!(EntryWrapper::Vacant(&mut m, s("j")).is_valid());
    assert!(!EntryWrapper::Occupied(&mut m, s("j")).is_valid());
}
