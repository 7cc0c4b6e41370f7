//! The front page: it remembers a name for the visitor, `Jude` unless the
//! session already holds one.
use vstd::prelude::*;
use vstd::slice::slice_to_vec;
use vstd::utf8::encode_utf8;
use crate::json::{encode_str, json_string, escaped};
use crate::store::OrInsert;
use crate::middlewares::session::session_wrapper::SessionWrapper;

verus! {

/// Stores the JSON text of `Jude` under `name` unless the session already
/// holds a name; hands back the stored text, or the default.
pub fn update_session(session: &mut SessionWrapper) -> (r: OrInsert<Vec<u8>, String>)
    ensures
        *final(final(session).session) == *final(old(session).session),
        old(session).session@.contains_key("name"@) ==> final(session).session@
            == old(session).session@ && (r matches OrInsert::Stored(b) && b@
            == old(session).session@["name"@]@),
        !old(session).session@.contains_key("name"@) ==> final(session).session@
            == old(session).session@.insert("name"@, final(session).session@["name"@])
            && final(session).session@["name"@]@ == encode_utf8("\"Jude\""@)
            && (r matches OrInsert::Inserted(v) && v@ == "Jude"@),
{
    proof {
        reveal_strlit("name");
        reveal_strlit("Jude");
        reveal_strlit("\"Jude\"");
        reveal_with_fuel(escaped, 5);
        assert(json_string("Jude"@) =~= "\"Jude\""@);
    }
    let default = String::from_str("Jude");
    let encoded = match encode_str(default.as_str()) {
        Ok(t) => slice_to_vec(t.as_str().as_bytes()),
        Err(_) => Vec::new(),
    };
    session.entry(String::from_str("name")).or_insert(default, encoded)
}

} // verus!
