//! JSON through `rustc_serialize`: how a session is written into a cookie and
//! read back, and how a string value is written into a session.
use vstd::prelude::*;
use vstd::utf8::{encode_utf8, valid_utf8, decode_utf8};
use std::collections::BTreeMap;
use rustc_serialize::json;
use crate::store::{keys_distinct, map_of};
use crate::json_text::{object_text, in_key_order, entry_views};

verus! {

#[verifier::external_type_specification]
#[verifier::external_body]
pub struct ExEncoderError(json::EncoderError);

/// How the JSON encoder failed: the variants of
/// `rustc_serialize::json::EncoderError`, without the `fmt::Error` that the
/// first one carries (a unit value).
#[derive(Debug, Clone, Copy)]
pub enum EncodeFailure {
    FmtError,
    BadHashmapKey,
}

/// The text that the encoder error's `Display` (its derived `Debug` form) writes.
pub open spec fn encode_failure_text(f: EncodeFailure) -> Seq<char> {
    match f {
        EncodeFailure::FmtError => "FmtError(Error)"@,
        EncodeFailure::BadHashmapKey => "BadHashmapKey"@,
    }
}

impl EncodeFailure {
    /// The text that the encoder error's `Display` writes.
    pub fn text(&self) -> (s: &'static str)
        ensures
            s@ == encode_failure_text(*self),
    {
        proof {
            reveal_strlit("FmtError(Error)");
            reveal_strlit("BadHashmapKey");
        }
        match self {
            EncodeFailure::FmtError => "FmtError(Error)",
            EncodeFailure::BadHashmapKey => "BadHashmapKey",
        }
    }
}

/// Tells the variants of a `rustc_serialize::json::EncoderError` apart, one
/// arm each.
#[verifier::external_body]
pub(crate) fn encode_failure(e: json::EncoderError) -> EncodeFailure {
    match e {
        json::EncoderError::FmtError(_) => EncodeFailure::FmtError,
        json::EncoderError::BadHashmapKey => EncodeFailure::BadHashmapKey,
    }
}

/// A session's values taken as byte sequences.
pub open spec fn session_bytes(m: Map<Seq<char>, Vec<u8>>) -> Map<Seq<char>, Seq<u8>> {
    m.map_values(|v: Vec<u8>| v@)
}

/// The JSON text that `rustc_serialize::json::encode` writes for a session held
/// in a `BTreeMap<String, Vec<u8>>`: an object with one member per key.
pub uninterp spec fn session_json(m: Map<Seq<char>, Seq<u8>>) -> Seq<char>;

/// What `rustc_serialize::json::decode` reads from a JSON text as a
/// `BTreeMap<String, Vec<u8>>`, if the text holds such an object.
pub uninterp spec fn session_from_json(s: Seq<char>) -> Option<Map<Seq<char>, Seq<u8>>>;

/// The lower-case hexadecimal digit of `n` (below 16).
pub open spec fn hex_digit(n: u32) -> char {
    if n < 10 {
        (48 + n) as char
    } else {
        (87 + n) as char
    }
}

/// How the JSON encoder writes the character `c` inside a string: quote and
/// backslash behind a backslash, the short escapes for backspace, tab, line
/// feed, form feed and carriage return, `\u00xx` for the other control
/// characters and for delete, and any other character as it is.
pub open spec fn escape_char(c: char) -> Seq<char> {
    if c == '"' {
        seq!['\\', '"']
    } else if c == '\\' {
        seq!['\\', '\\']
    } else if c == '\x08' {
        seq!['\\', 'b']
    } else if c == '\t' {
        seq!['\\', 't']
    } else if c == '\n' {
        seq!['\\', 'n']
    } else if c == '\x0c' {
        seq!['\\', 'f']
    } else if c == '\r' {
        seq!['\\', 'r']
    } else if (c as u32) < 32 || (c as u32) == 127 {
        seq!['\\', 'u', '0', '0', hex_digit((c as u32) / 16), hex_digit((c as u32) % 16)]
    } else {
        seq![c]
    }
}

/// The characters of `s`, each escaped as inside a JSON string.
pub open spec fn escaped(s: Seq<char>) -> Seq<char>
    decreases s.len(),
{
    if s.len() == 0 {
        Seq::empty()
    } else {
        escaped(s.drop_last()) + escape_char(s.last())
    }
}

/// The JSON text that `rustc_serialize::json::encode` writes for a string: the
/// string in double quotes, its characters escaped.
pub open spec fn json_string(s: Seq<char>) -> Seq<char> {
    seq!['"'] + escaped(s) + seq!['"']
}

/// The deepest nesting of arrays and objects that a text handed to the JSON
/// decoder may have. The decoder builds its tree by recursion, one level per
/// nested array or object, with no limit of its own; this bound keeps that
/// recursion far from the end of a thread's stack.
pub const MAX_JSON_DEPTH: usize = 512;

/// Where a left-to-right scan of JSON bytes stands: the current nesting depth,
/// the deepest so far, whether it is inside a string, and whether the byte
/// before was an escaping backslash inside a string.
pub open spec fn scan_step(st: (nat, nat, bool, bool), b: u8) -> (nat, nat, bool, bool) {
    let (depth, deepest, in_string, escaping) = st;
    if in_string {
        if escaping {
            (depth, deepest, true, false)
        } else if b == 92u8 {
            (depth, deepest, true, true)
        } else if b == 34u8 {
            (depth, deepest, false, false)
        } else {
            (depth, deepest, true, false)
        }
    } else if b == 34u8 {
        (depth, deepest, true, false)
    } else if b == 91u8 || b == 123u8 {
        (depth + 1, if deepest < depth + 1 { depth + 1 } else { deepest }, false, false)
    } else if b == 93u8 || b == 125u8 {
        (if depth > 0 { (depth - 1) as nat } else { 0nat }, deepest, false, false)
    } else {
        (depth, deepest, false, false)
    }
}

/// The scan of the bytes `b` from the start.
pub open spec fn scan(b: Seq<u8>) -> (nat, nat, bool, bool)
    decreases b.len(),
{
    if b.len() == 0 {
        (0nat, 0nat, false, false)
    } else {
        scan_step(scan(b.drop_last()), b.last())
    }
}

/// How deep `[` and `{` nest in the JSON bytes `b`, outside strings (a
/// closing bracket with nothing open counts as closing nothing).
pub open spec fn json_depth(b: Seq<u8>) -> nat {
    scan(b).1
}

/// What the session text `s` is read as: `session_from_json` for a text that
/// nests no deeper than `MAX_JSON_DEPTH`, and no session for a deeper one.
pub open spec fn session_of_text(s: Seq<char>) -> Option<Map<Seq<char>, Seq<u8>>> {
    if json_depth(encode_utf8(s)) <= MAX_JSON_DEPTH {
        session_from_json(s)
    } else {
        None
    }
}

/// How deep `[` and `{` nest in the text `s`, outside strings.
pub fn nesting_depth(s: &str) -> (n: usize)
    ensures
        n == json_depth(encode_utf8(s@)),
{
    let b = s.as_bytes();
    let mut depth: usize = 0;
    let mut deepest: usize = 0;
    let mut in_string = false;
    let mut escaping = false;
    let mut i: usize = 0;
    while i < b.len()
        invariant
            i <= b@.len(),
            b@ == encode_utf8(s@),
            scan(b@.take(i as int)) == (depth as nat, deepest as nat, in_string, escaping),
            depth <= i,
            deepest <= i,
        decreases b@.len() - i,
    {
        assert(b@.take(i + 1).drop_last() =~= b@.take(i as int));
        let c = b[i];
        if in_string {
            if escaping {
                escaping = false;
            } else if c == 92u8 {
                escaping = true;
            } else if c == 34u8 {
                in_string = false;
            }
        } else if c == 34u8 {
            in_string = true;
        } else if c == 91u8 || c == 123u8 {
            depth = depth + 1;
            if deepest < depth {
                deepest = depth;
            }
        } else if c == 93u8 || c == 125u8 {
            if depth > 0 {
                depth = depth - 1;
            }
        }
        i = i + 1;
    }
    assert(b@.take(b@.len() as int) =~= b@);
    deepest
}

/// Calls `String::from_utf8`. Claimed, as std documents: a string exactly
/// when the bytes are valid UTF-8, and then the string they encode.
#[verifier::external_body]
pub(crate) fn string_from_utf8(bytes: Vec<u8>) -> (r: Option<String>)
    ensures
        r is Some <==> valid_utf8(bytes@),
        r matches Some(s) ==> s@ == decode_utf8(bytes@),
{
    match String::from_utf8(bytes) {
        Ok(s) => Some(s),
        Err(_) => None,
    }
}

/// The text that the bytes of a stored value hold, when they are UTF-8.
pub fn json_text(bytes: &Vec<u8>) -> (r: Option<String>)
    ensures
        r is Some <==> valid_utf8(bytes@),
        r matches Some(s) ==> s@ == decode_utf8(bytes@),
{
    string_from_utf8(bytes.clone())
}

/// Calls `rustc_serialize::json::encode` on the session whose entries (each
/// key once) are `entries`, held as a `BTreeMap`. Claimed: the call succeeds
/// (the encoder fails only on a map key that is not a string, or when writing
/// into its `String` fails, and neither can happen here); its text is
/// `session_json` of the session; decoding that text gives the session back;
/// and the text is the JSON object of the entries in increasing byte order of
/// their keys (a `BTreeMap` is walked in order), each key a JSON string and
/// each value an array of decimal numbers.
#[verifier::external_body]
pub(crate) fn encode_session(entries: &[(String, Vec<u8>)]) -> (r: Result<String, json::EncoderError>)
    requires
        keys_distinct(entries@),
    ensures
        r is Ok,
        r matches Ok(s) ==> s@ == session_json(session_bytes(map_of(entries@))),
        r matches Ok(s) ==> session_from_json(s@) == Some(session_bytes(map_of(entries@))),
        r matches Ok(s) ==> exists|e: Seq<(Seq<char>, Seq<u8>)>|
            #![trigger object_text(e)]
            e.to_multiset() == entry_views(entries@).to_multiset() && in_key_order(e) && s@
                == object_text(e),
{
    let tree: BTreeMap<String, Vec<u8>> = entries.iter().cloned().collect();
    json::encode(&tree)
}

/// Calls `rustc_serialize::json::decode` for a `BTreeMap<String, Vec<u8>>` and
/// hands out its entries. Claimed: the result is `None` exactly when
/// `session_from_json` is, and otherwise its entries, each key once, make up
/// that session. Only texts that nest no deeper than `MAX_JSON_DEPTH` are
/// handed over: the decoder's parser reads strings (with their escapes) and
/// brackets as `json_depth` does, stops at the first error, and recurses once
/// per open array or object, so its recursion is no deeper than that bound.
#[verifier::external_body]
pub(crate) fn decode_session_entries(s: &str) -> (r: Option<Vec<(String, Vec<u8>)>>)
    requires
        json_depth(encode_utf8(s@)) <= MAX_JSON_DEPTH,
    ensures
        match r {
            Some(v) => keys_distinct(v@) && session_from_json(s@) == Some(
                session_bytes(map_of(v@)),
            ),
            None => session_from_json(s@) is None,
        },
{
    match json::decode::<BTreeMap<String, Vec<u8>>>(s) {
        Ok(tree) => Some(tree.into_iter().collect()),
        Err(_) => None,
    }
}

/// Calls `rustc_serialize::json::encode` on a string. Claimed: the call
/// succeeds (writing into a `String` does not fail) and gives `json_string` of
/// the string.
#[verifier::external_body]
pub(crate) fn encode_str(s: &str) -> (r: Result<String, json::EncoderError>)
    ensures
        r is Ok,
        r matches Ok(t) ==> t@ == json_string(s@),
{
    json::encode(&s)
}

} // verus!
