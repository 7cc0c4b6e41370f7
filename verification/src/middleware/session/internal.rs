//! A view of one request's session whose values are JSON texts kept as strings.
use vstd::prelude::*;
use crate::store::{StrMap, OrInsert, or_insert_map};

verus! {

/// A session: each key with the JSON text of its value.
pub type SessionMap = StrMap<String>;

/// Access to the session of one request.
pub struct Session<'a> {
    pub session: &'a mut SessionMap,
}

/// One key of a session, which holds a value or does not.
pub enum Entry<'a> {
    Occupied(&'a mut SessionMap, String),
    Vacant(&'a mut SessionMap, String),
}

/// The entry `e` is what `entry` hands out: `Occupied` for a key that the
/// session holds, `Vacant` for one that it does not.
pub open spec fn entry_wf(e: Entry) -> bool {
    match e {
        Entry::Occupied(m, k) => m@.contains_key(k@),
        Entry::Vacant(m, k) => !m@.contains_key(k@),
    }
}

impl<'a> Entry<'a> {
    /// Whether the entry is what `entry` hands out (`Occupied` for a key the
    /// session holds, `Vacant` for one it does not), as `or_insert` needs.
    pub fn is_valid(&self) -> (b: bool)
        ensures
            b == entry_wf(*self),
    {
        match self {
            Entry::Occupied(m, k) => m.contains_key(k),
            Entry::Vacant(m, k) => !m.contains_key(k),
        }
    }

    /// The value stored under the key, or else `default`, whose JSON text
    /// `encoded` is then stored under the key. Of a stored value the text is
    /// handed back, for the caller to decode.
    pub fn or_insert<V>(self, default: V, encoded: String) -> (r: OrInsert<String, V>)
        requires
            entry_wf(self),
        ensures
            match self {
                Entry::Occupied(m, k) => final(m)@ == or_insert_map(m@, k@, encoded),
                Entry::Vacant(m, k) => final(m)@ == or_insert_map(m@, k@, encoded),
            },
            match self {
                Entry::Occupied(m, k) => *final(m) == *m && (r matches OrInsert::Stored(s)
                    && s@ == m@[k@]@),
                Entry::Vacant(m, k) => final(m)@ == m@.insert(k@, encoded) && r
                    == OrInsert::<String, V>::Inserted(default),
            },
    {
        match self {
            Entry::Occupied(m, k) => {
                let s = m.get(&k).unwrap().clone();
                OrInsert::Stored(s)
            },
            Entry::Vacant(m, k) => {
                m.insert(k, encoded);
                OrInsert::Inserted(default)
            },
        }
    }

    /// Like `or_insert`, but the default and its JSON text come from calling
    /// `default`, which happens only when the key holds no value.
    pub fn or_insert_with<V, F: FnOnce() -> (V, String)>(self, default: F) -> (r: OrInsert<String, V>)
        requires
            entry_wf(self),
            self is Vacant ==> default.requires(()),
        ensures
            match self {
                Entry::Occupied(m, k) => *final(m) == *m && (r matches OrInsert::Stored(s)
                    && s@ == m@[k@]@),
                Entry::Vacant(m, k) => exists|v: V, s: String|
                    #![trigger default.ensures((), (v, s))]
                    default.ensures((), (v, s)) && final(m)@ == m@.insert(k@, s) && r
                        == OrInsert::<String, V>::Inserted(v),
            },
    {
        match self {
            Entry::Occupied(m, k) => {
                let s = m.get(&k).unwrap().clone();
                OrInsert::Stored(s)
            },
            Entry::Vacant(m, k) => {
                let (v, s) = default();
                m.insert(k, s);
                OrInsert::Inserted(v)
            },
        }
    }
}

impl<'a> Session<'a> {
    /// Wraps the session `m`.
    pub fn new(m: &'a mut SessionMap) -> (s: Session<'a>)
        ensures
            *s.session == *old(m),
            *final(s.session) == *final(m),
    {
        Session { session: m }
    }

    /// Stores `encoded`, the JSON text of `val`, under `key`. Hands `val` back
    /// when the key held a value before, `None` when it did not.
    pub fn insert<V>(&mut self, key: String, val: V, encoded: String) -> (r: Option<V>)
        ensures
            final(self).session@ == old(self).session@.insert(key@, encoded),
            *final(final(self).session) == *final(old(self).session),
            r is Some <==> old(self).session@.contains_key(key@),
            r matches Some(v) ==> v == val,
    {
        match self.session.insert(key, encoded) {
            Some(_) => Some(val),
            None => None,
        }
    }

    /// The JSON text stored under `key`, if any, for the caller to decode.
    pub fn get(&self, key: String) -> (r: Option<&String>)
        ensures
            match r {
                Some(s) => old(self.session)@.contains_key(key@) && *s == old(self.session)@[key@],
                None => !old(self.session)@.contains_key(key@),
            },
    {
        self.session.get(&key)
    }

    /// The entry of `key` in the session.
    pub fn entry<'b>(&'b mut self, key: String) -> (e: Entry<'b>)
        ensures
            entry_wf(e),
            match e {
                Entry::Occupied(m, k) => k == key && *m == *old(self).session
                    && *final(self).session == *final(m),
                Entry::Vacant(m, k) => k == key && *m == *old(self).session
                    && *final(self).session == *final(m),
            },
            *final(final(self).session) == *final(old(self).session),
    {
        if self.session.contains_key(&key) {
            Entry::Occupied(&mut *self.session, key)
        } else {
            Entry::Vacant(&mut *self.session, key)
        }
    }

    /// Removes `key`; hands back the JSON text it held, if any, for the
    /// caller to decode.
    pub fn remove(&mut self, key: String) -> (r: Option<String>)
        ensures
            final(self).session@ == old(self).session@.remove(key@),
            *final(final(self).session) == *final(old(self).session),
            match r {
                Some(s) => old(self).session@.contains_key(key@) && s == old(self).session@[key@],
                None => !old(self).session@.contains_key(key@),
            },
    {
        self.session.remove(&key)
    }

    /// Removes `key`, discarding what it held.
    pub fn remove_(&mut self, key: String)
        ensures
            final(self).session@ == old(self).session@.remove(key@),
            *final(final(self).session) == *final(old(self).session),
    {
        self.session.remove(&key);
    }

    /// Removes every key.
    pub fn clear(&mut self)
        ensures
            final(self).session@ == Map::<Seq<char>, String>::empty(),
            *final(final(self).session) == *final(old(self).session),
    {
        self.session.clear();
    }
}

} // verus!
