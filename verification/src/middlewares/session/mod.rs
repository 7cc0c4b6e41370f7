//! The session middleware: the key it seals cookies with, how it reads a
//! request's session from its cookies, and how it writes the session back
//! into a sealed cookie.
pub mod session_wrapper;

use vstd::prelude::*;
use crate::store::StrMap;
use crate::json::{
    encode_session, decode_session_entries, session_bytes, session_json, session_of_text,
    nesting_depth, MAX_JSON_DEPTH, EncodeFailure, encode_failure, encode_failure_text,
};
use crate::secret::{
    KEY_BYTES, gen_key, key_from_slice, jar_get, jar_value, cookie_pairs, unseal_cookie,
    seal_cookie, unsealed_cookie, parsed_cookie, parsed_cookies, lemma_request_cookies_push,
};
use self::session_wrapper::SessionMap;
use crate::json_text::{object_text, in_key_order, entry_views, lemma_object_text_depth};

verus! {

#[verifier::external_type_specification]
#[verifier::external_body]
pub struct ExIoError(std::io::Error);

/// The name of the cookie that carries the session.
pub open spec fn session_cookie() -> Seq<char> {
    "_SESSION"@
}

/// The session that a request whose cookies are `cookies` carries, for the
/// key `key`: what the sealed `_SESSION` cookie decrypts to, read as JSON; the
/// empty session when there is no such cookie, or it does not decrypt, or its
/// text is not a session (or nests deeper than the decoder is given).
pub open spec fn session_from_cookies(
    key: Seq<u8>,
    cookies: Seq<(Seq<char>, Seq<char>)>,
) -> Map<Seq<char>, Seq<u8>> {
    match jar_value(cookies, session_cookie()) {
        Some(sealed) => match unsealed_cookie(key, session_cookie(), sealed) {
            Some(text) => match session_of_text(text) {
                Some(m) => m,
                None => Map::empty(),
            },
            None => Map::empty(),
        },
        None => Map::empty(),
    }
}

/// A request without cookies carries the empty session.
pub proof fn lemma_no_cookie_no_session(key: Seq<u8>)
    ensures
        session_from_cookies(key, Seq::empty()) == Map::<Seq<char>, Seq<u8>>::empty(),
{
}

/// A cookie of another name, sent after the others, does not change the
/// session a request carries.
pub proof fn lemma_other_cookies_ignored(
    key: Seq<u8>,
    cookies: Seq<(Seq<char>, Seq<char>)>,
    name: Seq<char>,
    value: Seq<char>,
)
    requires
        name != session_cookie(),
    ensures
        session_from_cookies(key, cookies.push((name, value))) == session_from_cookies(key, cookies),
{
    assert(cookies.push((name, value)).drop_last() =~= cookies);
}

/// Of several session cookies in one request the last counts: the session is
/// what that cookie alone would carry, whatever came before it.
pub proof fn lemma_last_session_cookie_counts(
    key: Seq<u8>,
    cookies: Seq<(Seq<char>, Seq<char>)>,
    sealed: Seq<char>,
)
    ensures
        session_from_cookies(key, cookies.push((session_cookie(), sealed))) == session_from_cookies(
            key,
            seq![(session_cookie(), sealed)],
        ),
{
    let single = seq![(session_cookie(), sealed)];
    assert(single.drop_last() =~= Seq::<(Seq<char>, Seq<char>)>::empty());
    assert(single.last() == (session_cookie(), sealed));
}

/// A request whose `Cookie` header ends with the session cookie carries the
/// session that cookie alone carries, however many cookies come before it.
pub proof fn lemma_header_session_cookie(
    key: Seq<u8>,
    header: Seq<Seq<char>>,
    t: Seq<char>,
    sealed: Seq<char>,
)
    requires
        parsed_cookie(t) == Some((session_cookie(), sealed)),
    ensures
        session_from_cookies(key, parsed_cookies(header.push(t))) == session_from_cookies(
            key,
            seq![(session_cookie(), sealed)],
        ),
{
    lemma_request_cookies_push(header, t);
    lemma_last_session_cookie_counts(key, parsed_cookies(header), sealed);
}

/// What the halves of one middleware pair agree on: a session that one half
/// writes into a cookie, the other half reads back from a request that
/// carries that cookie after any others.
pub proof fn lemma_pair_round_trip(
    writer: &SessionWare,
    reader: &SessionWare,
    m: Map<Seq<char>, Seq<u8>>,
    cookies: Seq<(Seq<char>, Seq<char>)>,
    sealed: Seq<char>,
)
    requires
        writer.key() == reader.key(),
        session_from_cookies(writer.key(), seq![(session_cookie(), sealed)]) == m,
    ensures
        session_from_cookies(reader.key(), cookies.push((session_cookie(), sealed))) == m,
{
    lemma_last_session_cookie_counts(reader.key(), cookies, sealed);
}

/// Middleware that loads the session from a sealed cookie before a request is
/// handled and stores it back into one after.
pub struct SessionWare {
    key: Vec<u8>,
}

/// Why the key could not be had.
pub enum KeyLoadError {
    IoError(std::io::Error),
    CorruptedKeyError,
}

/// Where the key comes from: the key file, or fresh randomness (and must then
/// be written to the key file).
pub enum KeySource {
    Existing(Vec<u8>),
    Generated(Vec<u8>),
}

/// Why the session could not be stored in the response.
#[derive(Debug)]
pub enum SessionSaveError {
    SessionAbsent,
    SessionEncodeError(EncodeFailure),
}

impl SessionSaveError {
    /// The error as text: `SessionAbsent`, or `SessionEncodeError(..)` around
    /// the encoder error's own text.
    pub fn message(&self) -> (s: String)
        ensures
            self is SessionAbsent ==> s@ == "SessionAbsent"@,
            self matches SessionSaveError::SessionEncodeError(f) ==> s@ == "SessionEncodeError("@
                + encode_failure_text(*f) + ")"@,
    {
        proof {
            reveal_strlit("SessionAbsent");
            reveal_strlit("SessionEncodeError(");
            reveal_strlit(")");
        }
        match self {
            SessionSaveError::SessionAbsent => String::from_str("SessionAbsent"),
            SessionSaveError::SessionEncodeError(f) => {
                String::from_str("SessionEncodeError(").concat(f.text()).concat(")")
            },
        }
    }

    /// What went wrong, in words.
    pub fn description(&self) -> (s: &'static str)
        ensures
            self is SessionAbsent ==> s@ == "SessionMapType was not found on the request"@,
            self is SessionEncodeError ==> s@ == "Serializing the session failed"@,
    {
        proof {
            reveal_strlit("SessionMapType was not found on the request");
            reveal_strlit("Serializing the session failed");
        }
        match self {
            SessionSaveError::SessionAbsent => "SessionMapType was not found on the request",
            SessionSaveError::SessionEncodeError(_) => "Serializing the session failed",
        }
    }
}

/// Reads a session from its JSON text; `None` when the text is not a session,
/// and for a text whose arrays and objects nest deeper than `MAX_JSON_DEPTH`,
/// which is not handed to the decoder.
pub fn decode_session(cookie: String) -> (r: Option<SessionMap>)
    ensures
        match r {
            Some(m) => session_of_text(cookie@) == Some(session_bytes(m@)),
            None => session_of_text(cookie@) is None,
        },
{
    if nesting_depth(cookie.as_str()) > MAX_JSON_DEPTH {
        return None;
    }
    match decode_session_entries(cookie.as_str()) {
        Some(entries) => Some(StrMap::from_entries(entries)),
        None => None,
    }
}

impl SessionWare {
    #[verifier::type_invariant]
    closed spec fn wf(&self) -> bool {
        self.key@.len() == KEY_BYTES
    }

    /// The key that this middleware seals and opens the session cookie with.
    pub closed spec fn key(&self) -> Seq<u8> {
        self.key@
    }

    /// The two halves of the middleware (the one before and the one after the
    /// handler), both with the key `key`.
    pub fn with_key(key: Vec<u8>) -> (pair: (SessionWare, SessionWare))
        requires
            key@.len() == KEY_BYTES,
        ensures
            pair.0.key() == key@,
            pair.1.key() == key@,
    {
        let w = key.clone();
        (SessionWare { key }, SessionWare { key: w })
    }

    /// The key to use, given the contents of the key file when there is one:
    /// those contents when they make a key, `CorruptedKeyError` when they do
    /// not; a fresh key when there is no key file.
    pub fn read_or_create_key(key_file: Option<Vec<u8>>) -> (r: Result<KeySource, KeyLoadError>)
        ensures
            match key_file {
                Some(bytes) => if bytes@.len() == KEY_BYTES {
                    r matches Ok(KeySource::Existing(k)) && k@ == bytes@
                } else {
                    r matches Err(KeyLoadError::CorruptedKeyError)
                },
                None => r matches Ok(KeySource::Generated(k)) && k@.len() == KEY_BYTES,
            },
    {
        match key_file {
            Some(bytes) => match key_from_slice(bytes.as_slice()) {
                Some(k) => Ok(KeySource::Existing(k)),
                None => Err(KeyLoadError::CorruptedKeyError),
            },
            None => Ok(KeySource::Generated(gen_key())),
        }
    }

    /// The session that a request with the cookies `cookies` carries.
    pub fn before(&self, cookies: &[(String, String)]) -> (m: SessionMap)
        ensures
            session_bytes(m@) == session_from_cookies(self.key(), cookie_pairs(cookies@)),
    {
        proof {
            use_type_invariant(self);
            reveal_strlit("_SESSION");
        }
        let name = String::from_str("_SESSION");
        match jar_get(cookies, &name) {
            Some(sealed) => match unseal_cookie(self.key.as_slice(), name.as_str(), sealed.as_str()) {
                Some(text) => match decode_session(text) {
                    Some(m) => m,
                    None => {
                        let m = StrMap::new();
                        assert(session_bytes(m@) =~= Map::empty());
                        m
                    },
                },
                None => {
                    let m = StrMap::new();
                    assert(session_bytes(m@) =~= Map::empty());
                    m
                },
            },
            None => {
                let m = StrMap::new();
                assert(session_bytes(m@) =~= Map::empty());
                m
            },
        }
    }

    /// The cookie (name and sealed value) that carries the session `map` to
    /// the next request; `SessionAbsent` when there is no session.
    pub fn after(&self, map: Option<&SessionMap>) -> (r: Result<(String, String), SessionSaveError>)
        ensures
            map is None <==> r matches Err(SessionSaveError::SessionAbsent),
            map matches Some(m) ==> (r matches Ok((name, sealed)) && name@ == session_cookie()
                && unsealed_cookie(self.key(), name@, sealed@) == Some(session_json(session_bytes(m@)))
                && session_from_cookies(self.key(), seq![(name@, sealed@)]) == session_bytes(m@)),
    {
        proof {
            use_type_invariant(self);
            reveal_strlit("_SESSION");
        }
        match map {
            None => Err(SessionSaveError::SessionAbsent),
            Some(m) => match encode_session(m.entries()) {
                Ok(text) => {
                    proof {
                        let e = choose|e: Seq<(Seq<char>, Seq<u8>)>|
                            #![trigger object_text(e)]
                            e.to_multiset() == entry_views(m.entry_seq()).to_multiset()
                                && in_key_order(e) && text@ == object_text(e);
                        lemma_object_text_depth(e);
                    }
                    let name = String::from_str("_SESSION");
                    let sealed = seal_cookie(self.key.as_slice(), name.as_str(), text.as_str());
                    proof {
                        let cs = seq![(name@, sealed@)];
                        assert(cs.drop_last() =~= Seq::<(Seq<char>, Seq<char>)>::empty());
                        assert(jar_value(cs, session_cookie()) == Some(sealed@));
                    }
                    Ok((name, sealed))
                },
                Err(e) => Err(SessionSaveError::SessionEncodeError(encode_failure(e))),
            },
        }
    }
}

/// Stores the bytes `[1, 2, 3]` under the key `foo`.
pub fn set_session(map: &mut SessionMap)
    ensures
        session_bytes(final(map)@) == session_bytes(old(map)@).insert("foo"@, seq![1u8, 2u8, 3u8]),
{
    proof {
        reveal_strlit("foo");
    }
    let v: Vec<u8> = vec![1, 2, 3];
    map.insert(String::from_str("foo"), v);
    assert(session_bytes(map@) =~= session_bytes(old(map)@).insert("foo"@, seq![1u8, 2u8, 3u8]));
}

} // verus!
