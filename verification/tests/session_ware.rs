use jude_web::json::EncodeFailure;
use jude_web::middlewares::session::session_wrapper::SessionMap;
use jude_web::middlewares::session::{set_session, KeyLoadError, KeySource, SessionSaveError, SessionWare};

fn s(x: &str) -> String {
    x.to_string()
}

#[test]
fn ware_read_or_create_key() {
    match SessionWare::read_or_create_key(None) {
        Ok(KeySource::Generated(k)) => {
            assert_eq!(k.len(), 32);
            match SessionWare::read_or_create_key(Some(k.clone())) {
                Ok(KeySource::Existing(k2)) => assert_eq!(k2, k),
                _ => panic!("a stored key is read back"),
            }
        }
        _ => panic!("no key file gives a fresh key"),
    }
    assert!(matches!(
        SessionWare::read_or_create_key(Some(vec![1, 2, 3])),
        Err(KeyLoadError::CorruptedKeyError)
    ));
    assert!(matches!(
        SessionWare::read_or_create_key(Some(vec![0u8; 33])),
        Err(KeyLoadError::CorruptedKeyError)
    ));
    match SessionWare::read_or_create_key(Some(vec![5u8; 32])) {
        Ok(KeySource::Existing(k)) => assert_eq!(k, vec![5u8; 32]),
        _ => panic!("a key of the right length is used as it is"),
    }
}

#[test]
fn ware_sealed_cookie_is_not_plain_json() {
    let (w, _) = SessionWare::with_key(vec![6u8; 32]);
    let mut m = SessionMap::new();
    m.insert(s("foo"), vec![1, 2, 3]);
    let (_, sealed) = w.after(Some(&m)).ok().unwrap();
    assert!(!sealed.contains("foo"));
    assert_eq!(w.before(&[(s("_SESSION"), sealed.clone())]).len(), 1);
    assert_eq!(w.before(&[(s("OTHER"), sealed)]).len(), 0);
}

#[test]
fn ware_session_round_trip_between_halves() {
    let (before, after) = SessionWare::with_key(vec![9u8; 32]);
    let mut m = SessionMap::new();
    m.insert(s("name"), b"\"Jude\"".to_vec());
    set_session(&mut m);
    let (name, sealed) = after.after(Some(&m)).ok().expect("session stored");
    assert_eq!(name, "_SESSION");
    let cookies = vec![(s("other"), s("x")), (name, sealed)];
    let back = before.before(&cookies);
    assert_eq!(back.len(), 2);
    assert_eq!(back.get(&s("name")), Some(&b"\"Jude\"".to_vec()));
    assert_eq!(back.get(&s("foo")), Some(&vec![1u8, 2, 3]));
}

#[test]
fn ware_before_without_or_with_bad_cookie_is_empty() {
    let (w, _) = SessionWare::with_key(vec![1u8; 32]);
    assert_eq!(w.before(&[]).len(), 0);
    assert_eq!(w.before(&[(s("_SESSION"), s("garbage"))]).len(), 0);
    let (other, _) = SessionWare::with_key(vec![2u8; 32]);
    let mut m = SessionMap::new();
    m.insert(s("a"), vec![1]);
    let (n, v) = other.after(Some(&m)).ok().unwrap();
    assert_eq!(w.before(&[(n, v)]).len(), 0);
}

#[test]
fn ware_after_without_session() {
    let (w, _) = SessionWare::with_key(vec![1u8; 32]);
    let e = w.after(None).err().expect("no session");
    assert!(matches!(e, SessionSaveError::SessionAbsent));
    assert_eq!(e.description(), "SessionMapType was not found on the request");
}

#[test]
fn ware_set_session_stores_foo() {
    let mut m = SessionMap::new();
    set_session(&mut m);
    assert_eq!(m.get(&s("foo")), Some(&vec![1u8, 2, 3]));
}

#[test]
fn ware_save_error_message() {
    assert_eq!(SessionSaveError::SessionAbsent.message(), "SessionAbsent");
    assert_eq!(
        SessionSaveError::SessionEncodeError(EncodeFailure::BadHashmapKey).message(),
        "SessionEncodeError(BadHashmapKey)"
    );
    assert_eq!(
        SessionSaveError::SessionEncodeError(EncodeFailure::FmtError).message(),
        "SessionEncodeError(FmtError(Error))"
    );
    assert_eq!(
        format!("{}", rustc_serialize::json::EncoderError::BadHashmapKey),
        EncodeFailure::BadHashmapKey.text()
    );
    assert_eq!(
        format!("{}", rustc_serialize::json::EncoderError::FmtError(std::fmt::Error)),
        EncodeFailure::FmtError.text()
    );
}

#[test]
fn ware_round_trip_wide_session() {
    let (w, _) = SessionWare::with_key(vec![8u8; 32]);
    let mut m = SessionMap::new();
    for i in 0..600u32 {
        m.insert(format!("k{}", i), vec![(i % 256) as u8]);
    }
    let mut key = String::new();
    for _ in 0..600 {
        key.push('[');
    }
    m.insert(key.clone(), vec![1]);
    let (n, v) = w.after(Some(&m)).ok().unwrap();
    let back = w.before(&[(n, v)]);
    assert_eq!(back.len(), 601);
    assert_eq!(back.get(&key), Some(&vec![1u8]));
    assert_eq!(back.get(&s("k300")), Some(&vec![(300 % 256) as u8]));
}
