//! A view of one request's session whose values are JSON texts kept as bytes.
use vstd::prelude::*;
use crate::store::{StrMap, OrInsert, or_insert_map};

verus! {

/// A session: each key with the JSON text of its value, as bytes.
pub type SessionMap = StrMap<Vec<u8>>;

/// Access to the session of one request.
pub struct SessionWrapper<'a> {
    pub session: &'a mut SessionMap,
}

/// One key of a session, which holds a value or does not.
pub enum EntryWrapper<'a> {
    Occupied(&'a mut SessionMap, String),
    Vacant(&'a mut SessionMap, String),
}

/// The entry `e` is what `entry` hands out: `Occupied` for a key that the
/// session holds, `Vacant` for one that it does not.
pub open spec fn entry_wrapper_wf(e: EntryWrapper) -> bool {
    match e {
        EntryWrapper::Occupied(m, k) => m@.contains_key(k@),
        EntryWrapper::Vacant(m, k) => !m@.contains_key(k@),
    }
}

impl<'a> EntryWrapper<'a> {
    /// Whether the entry is what `entry` hands out (`Occupied` for a key the
    /// session holds, `Vacant` for one it does not), as `or_insert` needs.
    pub fn is_valid(&self) -> (b: bool)
        ensures
            b == entry_wrapper_wf(*self),
    {
        match self {
            EntryWrapper::Occupied(m, k) => m.contains_key(k),
            EntryWrapper::Vacant(m, k) => !m.contains_key(k),
        }
    }

    /// The value stored under the key, or else `default`, whose JSON text
    /// `encoded` is then stored under the key. Of a stored value the text is
    /// handed back, for the caller to decode.
    pub fn or_insert<V>(self, default: V, encoded: Vec<u8>) -> (r: OrInsert<Vec<u8>, V>)
        requires
            entry_wrapper_wf(self),
        ensures
            match self {
                EntryWrapper::Occupied(m, k) => final(m)@ == or_insert_map(m@, k@, encoded),
                EntryWrapper::Vacant(m, k) => final(m)@ == or_insert_map(m@, k@, encoded),
            },
            match self {
                EntryWrapper::Occupied(m, k) => *final(m) == *m && (r matches OrInsert::Stored(b)
                    && b@ == m@[k@]@),
                EntryWrapper::Vacant(m, k) => final(m)@ == m@.insert(k@, encoded) && r
                    == OrInsert::<Vec<u8>, V>::Inserted(default),
            },
    {
        match self {
            EntryWrapper::Occupied(m, k) => {
                let b = m.get(&k).unwrap().clone();
                OrInsert::Stored(b)
            },
            EntryWrapper::Vacant(m, k) => {
                m.insert(k, encoded);
                OrInsert::Inserted(default)
            },
        }
    }

    /// Like `or_insert`, but the default and its JSON text come from calling
    /// `default`, which happens only when the key holds no value.
    pub fn or_insert_with<V, F: FnOnce() -> (V, Vec<u8>)>(self, default: F) -> (r: OrInsert<Vec<u8>, V>)
        requires
            entry_wrapper_wf(self),
            self is Vacant ==> default.requires(()),
        ensures
            match self {
                EntryWrapper::Occupied(m, k) => *final(m) == *m && (r matches OrInsert::Stored(b)
                    && b@ == m@[k@]@),
                EntryWrapper::Vacant(m, k) => exists|v: V, b: Vec<u8>|
                    #![trigger default.ensures((), (v, b))]
                    default.ensures((), (v, b)) && final(m)@ == m@.insert(k@, b) && r
                        == OrInsert::<Vec<u8>, V>::Inserted(v),
            },
    {
        match self {
            EntryWrapper::Occupied(m, k) => {
                let b = m.get(&k).unwrap().clone();
                OrInsert::Stored(b)
            },
            EntryWrapper::Vacant(m, k) => {
                let (v, b) = default();
                m.insert(k, b);
                OrInsert::Inserted(v)
            },
        }
    }
}

impl<'a> SessionWrapper<'a> {
    /// Wraps the session `m`.
    pub fn new(m: &'a mut SessionMap) -> (w: SessionWrapper<'a>)
        ensures
            *w.session == *old(m),
            *final(w.session) == *final(m),
    {
        SessionWrapper { session: m }
    }

    /// Stores `encoded`, the JSON text of `val`, under `key`. Hands `val` back
    /// when the key held a value before, `None` when it did not.
    pub fn insert<V>(&mut self, key: String, val: V, encoded: Vec<u8>) -> (r: Option<V>)
        ensures
            final(self).session@ == old(self).session@.insert(key@, encoded),
            *final(final(self).session) == *final(old(self).session),
            r is Some <==> old(self).session@.contains_key(key@),
            r matches Some(v) ==> v == val,
    {
        match self.session.insert(key, encoded) {
            Some(_) => Some(val),
            None => None,
        }
    }

    /// The JSON text stored under `key`, if any, for the caller to decode.
    pub fn get(&self, key: String) -> (r: Option<&Vec<u8>>)
        ensures
            match r {
                Some(b) => old(self.session)@.contains_key(key@) && *b == old(self.session)@[key@],
                None => !old(self.session)@.contains_key(key@),
            },
    {
        self.session.get(&key)
    }

    /// The entry of `key` in the session.
    pub fn entry<'b>(&'b mut self, key: String) -> (e: EntryWrapper<'b>)
        ensures
            entry_wrapper_wf(e),
            match e {
                EntryWrapper::Occupied(m, k) => k == key && *m == *old(self).session
                    && *final(self).session == *final(m),
                EntryWrapper::Vacant(m, k) => k == key && *m == *old(self).session
                    && *final(self).session == *final(m),
            },
            *final(final(self).session) == *final(old(self).session),
    {
        if self.session.contains_key(&key) {
            EntryWrapper::Occupied(&mut *self.session, key)
        } else {
            EntryWrapper::Vacant(&mut *self.session, key)
        }
    }
}

} // verus!
