use jude_web::secret::{jar_get, request_cookies, KEY_BYTES};

fn s(x: &str) -> String {
    x.to_string()
}

#[test]
fn secret_key_length() {
    assert_eq!(KEY_BYTES, 32);
}

#[test]
fn secret_jar_get_last_cookie_of_name_counts() {
    let cookies = vec![(s("a"), s("1")), (s("b"), s("2")), (s("a"), s("3"))];
    assert_eq!(jar_get(&cookies, &s("a")), Some(s("3")));
    assert_eq!(jar_get(&cookies, &s("b")), Some(s("2")));
    assert_eq!(jar_get(&cookies, &s("c")), None);
    assert_eq!(jar_get(&[], &s("a")), None);
}

#[test]
fn secret_request_cookies_parses_header_texts() {
    let header = vec![s("a=1"), s("broken"), s("_SESSION=xyz"), s(" b = 2 ")];
    assert_eq!(
        request_cookies(&header),
        vec![(s("a"), s("1")), (s("_SESSION"), s("xyz")), (s("b"), s("2"))]
    );
    assert_eq!(request_cookies(&[]), vec![]);
}
