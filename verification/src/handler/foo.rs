//! The page that leaves a message in the visitor's session.
use vstd::prelude::*;
use vstd::slice::slice_to_vec;
use vstd::utf8::encode_utf8;
use crate::json::{encode_str, json_string, escaped};
use crate::middlewares::session::session_wrapper::SessionWrapper;

verus! {

/// Stores the JSON text of `This is a message` under `message`; hands the
/// message back when the session held a message before.
pub fn update_session(session: &mut SessionWrapper) -> (r: Option<&'static str>)
    ensures
        *final(final(session).session) == *final(old(session).session),
        final(session).session@.dom() == old(session).session@.dom().insert("message"@),
        final(session).session@["message"@]@ == encode_utf8("\"This is a message\""@),
        forall|k: Seq<char>|
            k != "message"@ && #[trigger] old(session).session@.contains_key(k)
                ==> final(session).session@[k] == old(session).session@[k],
        r is Some <==> old(session).session@.contains_key("message"@),
        r matches Some(m) ==> m@ == "This is a message"@,
{
    proof {
        reveal_strlit("message");
        reveal_strlit("This is a message");
        reveal_strlit("\"This is a message\"");
        reveal_with_fuel(escaped, 18);
        assert(json_string("This is a message"@) =~= "\"This is a message\""@);
    }
    let message: &'static str = "This is a message";
    let encoded = match encode_str(message) {
        Ok(t) => slice_to_vec(t.as_str().as_bytes()),
        Err(_) => Vec::new(),
    };
    session.insert(String::from_str("message"), message, encoded)
}

} // verus!
