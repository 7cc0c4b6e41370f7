use jude_web::handler::{foo, index};
use jude_web::middlewares::session::session_wrapper::{SessionMap, SessionWrapper};
use jude_web::store::OrInsert;

fn s(x: &str) -> String {
    x.to_string()
}

#[test]
fn handler_index_remembers_first_name() {
    let mut m = SessionMap::new();
    {
        let mut w = SessionWrapper::new(&mut m);
        assert!(matches!(index::update_session(&mut w), OrInsert::Inserted(ref v) if v == "Jude"));
    }
    assert_eq!(m.get(&s("name")), Some(&b"\"Jude\"".to_vec()));
    m.insert(s("name"), b"\"Ann\"".to_vec());
    {
        let mut w = SessionWrapper::new(&mut m);
        match index::update_session(&mut w) {
            OrInsert::Stored(t) => assert_eq!(t, b"\"Ann\"".to_vec()),
            OrInsert::Inserted(_) => panic!("a name was stored"),
        }
    }
    assert_eq!(m.get(&s("name")), Some(&b"\"Ann\"".to_vec()));
}

#[test]
fn handler_foo_leaves_message() {
    let mut m = SessionMap::new();
    {
        let mut w = SessionWrapper::new(&mut m);
        assert_eq!(foo::update_session(&mut w), None);
        assert_eq!(foo::update_session(&mut w), Some("This is a message"));
    }
    assert_eq!(m.get(&s("message")), Some(&b"\"This is a message\"".to_vec()));
}
