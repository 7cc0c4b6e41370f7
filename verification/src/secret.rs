//! The secret key that seals session cookies, and the cookie sealing itself:
//! `sodiumoxide` makes and checks the key, the `cookie` crate's private jar
//! encrypts and authenticates cookie values with it.
use vstd::prelude::*;
use sodiumoxide::crypto::secretbox;
use cookie::{Cookie, CookieJar, Key};

verus! {

/// The length in bytes of a secret-box key.
pub const KEY_BYTES: usize = 32;

/// The value of the cookie named `name` that a `cookie::CookieJar` holds after
/// each of `cookies` was added to it in turn as an original cookie: a cookie
/// replaces an earlier one of the same name, so the last one counts.
pub open spec fn jar_value(cookies: Seq<(Seq<char>, Seq<char>)>, name: Seq<char>) -> Option<Seq<char>>
    decreases cookies.len(),
{
    if cookies.len() == 0 {
        None
    } else if cookies.last().0 == name {
        Some(cookies.last().1)
    } else {
        jar_value(cookies.drop_last(), name)
    }
}

/// The cookies `cs` as pairs of views.
pub open spec fn cookie_pairs(cs: Seq<(String, String)>) -> Seq<(Seq<char>, Seq<char>)> {
    cs.map_values(|c: (String, String)| (c.0@, c.1@))
}

/// What the `cookie` crate's private jar, with the keys that
/// `cookie::Key::derive_from` derives from `key`, decrypts from the sealed
/// value `sealed` of a cookie named `name`: the plain value, or `None` when the
/// value does not authenticate.
pub uninterp spec fn unsealed_cookie(key: Seq<u8>, name: Seq<char>, sealed: Seq<char>) -> Option<Seq<char>>;

/// Calls `sodiumoxide::crypto::secretbox::gen_key`, which fills a key with
/// random bytes. Claimed: the key has `KEY_BYTES` bytes; nothing is claimed of
/// which bytes.
#[verifier::external_body]
pub(crate) fn gen_key() -> (k: Vec<u8>)
    ensures
        k@.len() == KEY_BYTES,
{
    let secretbox::Key(bytes) = secretbox::gen_key();
    bytes.to_vec()
}

/// Calls `sodiumoxide::crypto::secretbox::Key::from_slice`. Claimed: it gives a
/// key exactly when `bs` has `KEY_BYTES` bytes, and that key is `bs`.
#[verifier::external_body]
pub(crate) fn key_from_slice(bs: &[u8]) -> (r: Option<Vec<u8>>)
    ensures
        r is Some <==> bs@.len() == KEY_BYTES,
        r matches Some(k) ==> k@ == bs@,
{
    match secretbox::Key::from_slice(bs) {
        Some(secretbox::Key(bytes)) => Some(bytes.to_vec()),
        None => None,
    }
}

/// How `cookie::Cookie::parse` reads one cookie of a request's `Cookie`
/// header: its name and value, or `None` when the text is not a cookie.
pub uninterp spec fn parsed_cookie(s: Seq<char>) -> Option<(Seq<char>, Seq<char>)>;

/// The cookies that the texts `header` of a `Cookie` header hold, in order,
/// leaving out the texts that are not cookies.
pub open spec fn parsed_cookies(header: Seq<Seq<char>>) -> Seq<(Seq<char>, Seq<char>)>
    decreases header.len(),
{
    if header.len() == 0 {
        Seq::empty()
    } else {
        let rest = parsed_cookies(header.drop_last());
        match parsed_cookie(header.last()) {
            Some(c) => rest.push(c),
            None => rest,
        }
    }
}

/// Calls `cookie::Cookie::parse` on one cookie text and hands out its name
/// and value. Claimed: the result is `parsed_cookie` of the text.
#[verifier::external_body]
pub(crate) fn parse_cookie(s: &str) -> (r: Option<(String, String)>)
    ensures
        match r {
            Some(c) => parsed_cookie(s@) == Some((c.0@, c.1@)),
            None => parsed_cookie(s@) is None,
        },
{
    match Cookie::parse(s) {
        Ok(c) => Some((c.name().to_string(), c.value().to_string())),
        Err(_) => None,
    }
}

/// Reading one more header text keeps every cookie read so far, in order, and
/// adds that text's cookie when it parses: no parseable text is ever dropped,
/// however many came before it.
pub proof fn lemma_request_cookies_push(header: Seq<Seq<char>>, t: Seq<char>)
    ensures
        parsed_cookie(t) is None ==> parsed_cookies(header.push(t)) == parsed_cookies(header),
        parsed_cookie(t) matches Some(c) ==> parsed_cookies(header.push(t)) == parsed_cookies(
            header,
        ).push(c),
        parsed_cookie(t) is Some ==> parsed_cookies(header.push(t)).len() == parsed_cookies(header).len() + 1,
{
    assert(header.push(t).drop_last() =~= header);
}

/// When every text of the header parses, the cookies read are exactly those
/// texts' cookies, one for each text, in the header's order.
pub proof fn lemma_request_cookies_all_parse(header: Seq<Seq<char>>)
    requires
        forall|i: int| 0 <= i < header.len() ==> #[trigger] parsed_cookie(header[i]) is Some,
    ensures
        parsed_cookies(header).len() == header.len(),
        forall|i: int|
            0 <= i < header.len() ==> Some(#[trigger] parsed_cookies(header)[i]) == parsed_cookie(
                header[i],
            ),
    decreases header.len(),
{
    if header.len() > 0 {
        let rest = header.drop_last();
        assert forall|i: int| 0 <= i < rest.len() implies #[trigger] parsed_cookie(rest[i]) is Some by {
            assert(rest[i] == header[i]);
        }
        lemma_request_cookies_all_parse(rest);
        assert(parsed_cookie(header[header.len() - 1]) is Some);
        assert forall|i: int| 0 <= i < header.len() implies Some(
            #[trigger] parsed_cookies(header)[i],
        ) == parsed_cookie(header[i]) by {
            if i < rest.len() {
                assert(rest[i] == header[i]);
            }
        }
    }
}

/// The cookies that the texts of a request's `Cookie` header hold, in order.
pub fn request_cookies(header: &[String]) -> (r: Vec<(String, String)>)
    ensures
        cookie_pairs(r@) == parsed_cookies(header@.map_values(|h: String| h@)),
{
    let ghost hv = header@.map_values(|h: String| h@);
    let mut r: Vec<(String, String)> = Vec::new();
    let mut i: usize = 0;
    while i < header.len()
        invariant
            i <= header@.len(),
            hv == header@.map_values(|h: String| h@),
            cookie_pairs(r@) == parsed_cookies(hv.take(i as int)),
        decreases header@.len() - i,
    {
        assert(hv.take(i + 1).drop_last() =~= hv.take(i as int));
        assert(hv.take(i + 1).last() == header@[i as int]@);
        match parse_cookie(header[i].as_str()) {
            Some(c) => {
                let ghost before = r@;
                r.push(c);
                assert(cookie_pairs(r@) =~= cookie_pairs(before).push((c.0@, c.1@)));
            },
            None => {},
        }
        i = i + 1;
    }
    assert(hv.take(header@.len() as int) =~= hv);
    r
}

/// The value a `cookie::CookieJar` holds for the cookie named `name` after
/// each of `cookies` was added to it in turn with `add_original`: the value of
/// the last cookie of that name (`add_original` replaces a cookie of the same
/// name), or `None` when there is none.
pub fn jar_get(cookies: &[(String, String)], name: &String) -> (r: Option<String>)
    ensures
        match r {
            Some(v) => jar_value(cookie_pairs(cookies@), name@) == Some(v@),
            None => jar_value(cookie_pairs(cookies@), name@) is None,
        },
{
    let mut i: usize = cookies.len();
    assert(cookies@.take(i as int) =~= cookies@);
    while i > 0
        invariant
            i <= cookies@.len(),
            jar_value(cookie_pairs(cookies@), name@) == jar_value(
                cookie_pairs(cookies@.take(i as int)),
                name@,
            ),
        decreases i,
    {
        let ghost pre = cookie_pairs(cookies@.take(i as int));
        assert(pre.drop_last() =~= cookie_pairs(cookies@.take(i - 1)));
        assert(pre.last() == (cookies@[i - 1].0@, cookies@[i - 1].1@));
        if cookies[i - 1].0 == *name {
            return Some(cookies[i - 1].1.clone());
        }
        i = i - 1;
    }
    assert(cookie_pairs(cookies@.take(0)) =~= Seq::<(Seq<char>, Seq<char>)>::empty());
    None
}

/// Calls `cookie::PrivateJar::decrypt` (keys from `cookie::Key::derive_from`,
/// which panics on a master key under 32 bytes) on the cookie `name=sealed`.
/// Claimed: the result is `unsealed_cookie` of the key, name and sealed value.
#[verifier::external_body]
pub(crate) fn unseal_cookie(key: &[u8], name: &str, sealed: &str) -> (r: Option<String>)
    requires
        key@.len() >= 32,
    ensures
        match r {
            Some(v) => unsealed_cookie(key@, name@, sealed@) == Some(v@),
            None => unsealed_cookie(key@, name@, sealed@) is None,
        },
{
    let jar = CookieJar::new();
    let cookie = Cookie::new(name.to_string(), sealed.to_string());
    jar.private(&Key::derive_from(key)).decrypt(cookie).map(|c| c.value().to_string())
}

/// Calls `cookie::PrivateJar::add` (keys from `cookie::Key::derive_from`) with
/// the cookie `name=value` and hands out the sealed value it stored. The nonce
/// is random, so nothing is claimed of the sealed text itself; claimed is what
/// the crate documents: a value sealed by a private jar always decrypts, with
/// the same key, to the value.
#[verifier::external_body]
pub(crate) fn seal_cookie(key: &[u8], name: &str, value: &str) -> (sealed: String)
    requires
        key@.len() >= 32,
    ensures
        unsealed_cookie(key@, name@, sealed@) == Some(value@),
{
    let mut jar = CookieJar::new();
    jar.private_mut(&Key::derive_from(key)).add(Cookie::new(name.to_string(), value.to_string()));
    jar.get(name).map(|c| c.value().to_string()).unwrap_or_default()
}

} // verus!
