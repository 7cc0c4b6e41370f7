use jude_web::json::{json_text, nesting_depth, MAX_JSON_DEPTH};
use jude_web::middlewares::session::decode_session;

fn s(x: &str) -> String {
    x.to_string()
}

#[test]
fn json_decode_session_object() {
    let m = decode_session(s("{\"foo\":[1,2,3],\"bar\":[]}")).expect("a session");
    assert_eq!(m.len(), 2);
    assert_eq!(m.get(&s("foo")), Some(&vec![1u8, 2, 3]));
    assert_eq!(m.get(&s("bar")), Some(&vec![]));
    assert_eq!(decode_session(s("{}")).expect("the empty session").len(), 0);
}

#[test]
fn json_decode_rejects_non_sessions() {
    assert!(decode_session(s("not json")).is_none());
    assert!(decode_session(s("[1,2]")).is_none());
    assert!(decode_session(s("{\"a\":[300]}")).is_none());
    assert!(decode_session(s("{\"a\":\"text\"}")).is_none());
}

fn nest(n: usize) -> String {
    let mut t = String::new();
    for _ in 0..n {
        t.push('[');
    }
    for _ in 0..n {
        t.push(']');
    }
    t
}

#[test]
fn json_decode_bounds_nesting() {
    assert_eq!(nesting_depth("{\"a\":[1],\"[[\\\"[\":[]}"), 2);
    assert_eq!(nesting_depth("]]["), 1);
    assert_eq!(nesting_depth(""), 0);
    assert_eq!(nesting_depth(&nest(MAX_JSON_DEPTH)), MAX_JSON_DEPTH);
    assert!(decode_session(nest(MAX_JSON_DEPTH)).is_none());
    assert!(decode_session(nest(MAX_JSON_DEPTH + 1)).is_none());
    assert!(decode_session(nest(200_000)).is_none());
    let mut deep = s("{\"k\":");
    deep.push_str(&nest(100_000));
    deep.push('}');
    assert!(decode_session(deep).is_none());
}

#[test]
fn json_decode_wide_sessions() {
    let mut many = s("{");
    for i in 0..600 {
        if i > 0 {
            many.push(',');
        }
        many.push_str(&format!("\"k{}\":[{}]", i, i % 256));
    }
    many.push('}');
    let m = decode_session(many).expect("600 keys");
    assert_eq!(m.len(), 600);
    assert_eq!(m.get(&s("k599")), Some(&vec![(599 % 256) as u8]));
    let mut bracket_key = s("{\"");
    for _ in 0..600 {
        bracket_key.push('[');
    }
    bracket_key.push_str("\":[7]}");
    assert_eq!(decode_session(bracket_key).expect("one key").len(), 1);
}

#[test]
fn json_text_of_bytes() {
    assert_eq!(json_text(&b"\"hi\"".to_vec()), Some(s("\"hi\"")));
    assert_eq!(json_text(&vec![0xc3, 0x28]), None);
}
