//! A map from string keys to values, kept as a list of distinct keys.
//!
//! Sessions and the template cache are maps keyed by strings. The map keeps
//! its entries in a vector, with the invariant that no key occurs twice, and is
//! seen from outside as a `Map<Seq<char>, V>`.
use vstd::prelude::*;

verus! {

/// True when no two entries of `s` carry the same key.
pub open spec fn keys_distinct<V>(s: Seq<(String, V)>) -> bool {
    forall|i: int, j: int|
        0 <= i < s.len() && 0 <= j < s.len() && i != j ==> #[trigger] s[i].0@ != #[trigger] s[j].0@
}

/// True when some entry of `s` carries the key `k`.
pub open spec fn has_key<V>(s: Seq<(String, V)>, k: Seq<char>) -> bool {
    exists|i: int| 0 <= i < s.len() && #[trigger] s[i].0@ == k
}

/// The position of an entry with key `k` in `s` (meaningful when there is one).
pub open spec fn position_of<V>(s: Seq<(String, V)>, k: Seq<char>) -> int {
    choose|i: int| 0 <= i < s.len() && #[trigger] s[i].0@ == k
}

/// The map that the entries `s` stand for.
pub open spec fn map_of<V>(s: Seq<(String, V)>) -> Map<Seq<char>, V> {
    Map::new(|k: Seq<char>| has_key(s, k), |k: Seq<char>| s[position_of(s, k)].1)
}

/// With distinct keys, the entry at `i` is the one the map shows for its key.
pub proof fn lemma_map_of_at<V>(s: Seq<(String, V)>, i: int)
    requires
        keys_distinct(s),
        0 <= i < s.len(),
    ensures
        map_of(s).contains_key(s[i].0@),
        map_of(s)[s[i].0@] == s[i].1,
{
    let k = s[i].0@;
    assert(has_key(s, k));
    let p = position_of(s, k);
    assert(s[p].0@ == k);
    if p != i {
        assert(s[p].0@ != s[i].0@);
    }
}

/// Appending an entry with a new key adds that key to the map.
pub proof fn lemma_map_of_push<V>(s: Seq<(String, V)>, k: String, v: V)
    requires
        keys_distinct(s),
        !has_key(s, k@),
    ensures
        keys_distinct(s.push((k, v))),
        map_of(s.push((k, v))) =~= map_of(s).insert(k@, v),
{
    let t = s.push((k, v));
    assert forall|i: int, j: int|
        0 <= i < t.len() && 0 <= j < t.len() && i != j implies #[trigger] t[i].0@ != #[trigger] t[j].0@ by {
        if i < s.len() && j < s.len() {
            assert(t[i] == s[i] && t[j] == s[j]);
        } else if i == s.len() {
            assert(t[j] == s[j]);
        } else {
            assert(t[i] == s[i]);
        }
    }
    assert forall|q: Seq<char>| #[trigger] map_of(t).contains_key(q) == map_of(s).insert(k@, v).contains_key(q) by {
        assert(t[s.len() as int].0@ == k@);
        if has_key(s, q) {
            let p = position_of(s, q);
            assert(t[p] == s[p]);
        }
        if has_key(t, q) {
            let p = position_of(t, q);
            if p < s.len() {
                assert(t[p] == s[p]);
            }
        }
    }
    assert forall|q: Seq<char>| map_of(t).contains_key(q) implies map_of(t)[q] == map_of(s).insert(k@, v)[q] by {
        let p = position_of(t, q);
        lemma_map_of_at(t, p);
        if p < s.len() {
            assert(t[p] == s[p]);
            lemma_map_of_at(s, p);
        }
    }
}

/// Removing the entry at `i` removes its key from the map.
pub proof fn lemma_map_of_remove<V>(s: Seq<(String, V)>, i: int)
    requires
        keys_distinct(s),
        0 <= i < s.len(),
    ensures
        keys_distinct(s.remove(i)),
        map_of(s.remove(i)) =~= map_of(s).remove(s[i].0@),
{
    let t = s.remove(i);
    let k = s[i].0@;
    assert forall|a: int, b: int|
        0 <= a < t.len() && 0 <= b < t.len() && a != b implies #[trigger] t[a].0@ != #[trigger] t[b].0@ by {
        let a2 = if a < i { a } else { a + 1 };
        let b2 = if b < i { b } else { b + 1 };
        assert(t[a] == s[a2] && t[b] == s[b2]);
    }
    assert forall|q: Seq<char>| #[trigger] map_of(t).contains_key(q) == map_of(s).remove(k).contains_key(q) by {
        if has_key(t, q) {
            let p = position_of(t, q);
            let p2 = if p < i { p } else { p + 1 };
            assert(t[p] == s[p2]);
            assert(s[p2].0@ != s[i].0@);
        }
        if has_key(s, q) && q != k {
            let p = position_of(s, q);
            assert(p != i);
            let p2 = if p < i { p } else { p - 1 };
            assert(t[p2] == s[p]);
        }
    }
    assert forall|q: Seq<char>| map_of(t).contains_key(q) implies map_of(t)[q] == map_of(s).remove(k)[q] by {
        let p = position_of(t, q);
        lemma_map_of_at(t, p);
        let p2 = if p < i { p } else { p + 1 };
        assert(t[p] == s[p2]);
        lemma_map_of_at(s, p2);
    }
}

/// The map after `or_insert` of `default` under `k`: unchanged when `k` is
/// there, with `k` set to `default` when it is not.
pub open spec fn or_insert_map<V>(m: Map<Seq<char>, V>, k: Seq<char>, default: V) -> Map<Seq<char>, V> {
    if m.contains_key(k) {
        m
    } else {
        m.insert(k, default)
    }
}

/// A read gives back what the last write of the same key wrote, and a write
/// leaves the other keys as they were.
pub proof fn lemma_read_after_write<V>(m: Map<Seq<char>, V>, k: Seq<char>, v: V, other: Seq<char>)
    requires
        other != k,
    ensures
        m.insert(k, v).contains_key(k),
        m.insert(k, v)[k] == v,
        m.insert(k, v).contains_key(other) == m.contains_key(other),
        m.contains_key(other) ==> m.insert(k, v)[other] == m[other],
{
}

/// After a remove the key is absent, and the other keys are as they were.
pub proof fn lemma_read_after_remove<V>(m: Map<Seq<char>, V>, k: Seq<char>, other: Seq<char>)
    requires
        other != k,
    ensures
        !m.remove(k).contains_key(k),
        m.remove(k).contains_key(other) == m.contains_key(other),
        m.contains_key(other) ==> m.remove(k)[other] == m[other],
{
}

/// The first default wins: a second `or_insert` under the same key changes
/// nothing, whatever its default.
pub proof fn lemma_or_insert_keeps_first<V>(m: Map<Seq<char>, V>, k: Seq<char>, a: V, b: V)
    ensures
        or_insert_map(or_insert_map(m, k, a), k, b) == or_insert_map(m, k, a),
        or_insert_map(m, k, a).contains_key(k),
        !m.contains_key(k) ==> or_insert_map(m, k, a)[k] == a,
        m.contains_key(k) ==> or_insert_map(m, k, a)[k] == m[k],
{
}

/// What `or_insert` on a session entry hands back: the encoded value that was
/// already stored under the key, or the default that was stored in its place.
pub enum OrInsert<S, V> {
    Stored(S),
    Inserted(V),
}

/// A map from string keys to values.
pub struct StrMap<V> {
    entries: Vec<(String, V)>,
}

impl<V> View for StrMap<V> {
    type V = Map<Seq<char>, V>;

    closed spec fn view(&self) -> Map<Seq<char>, V> {
        map_of(self.entries@)
    }
}

impl<V> StrMap<V> {
    #[verifier::type_invariant]
    closed spec fn wf(&self) -> bool {
        keys_distinct(self.entries@)
    }

    /// The entries, in the order in which they are kept.
    pub closed spec fn entry_seq(&self) -> Seq<(String, V)> {
        self.entries@
    }

    /// An empty map.
    pub fn new() -> (m: Self)
        ensures
            m@ == Map::<Seq<char>, V>::empty(),
    {
        let m = StrMap { entries: Vec::new() };
        assert(m@ =~= Map::<Seq<char>, V>::empty());
        m
    }

    /// The map whose entries are `entries`, which hold each key once.
    pub fn from_entries(entries: Vec<(String, V)>) -> (m: Self)
        requires
            keys_distinct(entries@),
        ensures
            m@ == map_of(entries@),
            m.entry_seq() == entries@,
    {
        StrMap { entries }
    }

    /// The number of keys in the map.
    pub fn len(&self) -> (n: usize)
        ensures
            n == self@.len(),
    {
        proof {
            use_type_invariant(self);
            lemma_map_of_len(self.entries@);
        }
        self.entries.len()
    }

    /// The position of the entry with key `key`, if there is one.
    fn find(&self, key: &String) -> (r: Option<usize>)
        ensures
            match r {
                Some(i) => i < self.entries@.len() && self.entries@[i as int].0@ == key@,
                None => !has_key(self.entries@, key@),
            },
    {
        let mut i: usize = 0;
        while i < self.entries.len()
            invariant
                i <= self.entries@.len(),
                forall|j: int| 0 <= j < i ==> #[trigger] self.entries@[j].0@ != key@,
            decreases self.entries@.len() - i,
        {
            if self.entries[i].0 == *key {
                return Some(i);
            }
            i = i + 1;
        }
        None
    }

    /// Whether the map holds the key `key`.
    pub fn contains_key(&self, key: &String) -> (b: bool)
        ensures
            b == self@.contains_key(key@),
    {
        self.find(key).is_some()
    }

    /// The value kept for `key`, if any.
    pub fn get(&self, key: &String) -> (r: Option<&V>)
        ensures
            match r {
                Some(v) => self@.contains_key(key@) && *v == self@[key@],
                None => !self@.contains_key(key@),
            },
    {
        proof {
            use_type_invariant(self);
        }
        match self.find(key) {
            Some(i) => {
                proof {
                    lemma_map_of_at(self.entries@, i as int);
                }
                Some(&self.entries[i].1)
            },
            None => None,
        }
    }

    /// Sets the value of `key` to `value`; returns the value it had before,
    /// if it had one.
    pub fn insert(&mut self, key: String, value: V) -> (r: Option<V>)
        ensures
            final(self)@ == old(self)@.insert(key@, value),
            match r {
                Some(v) => old(self)@.contains_key(key@) && v == old(self)@[key@],
                None => !old(self)@.contains_key(key@),
            },
    {
        proof {
            use_type_invariant(&*self);
        }
        let ghost s0 = self.entries@;
        let found = self.find(&key);
        match found {
            Some(i) => {
                proof {
                    lemma_map_of_at(s0, i as int);
                    lemma_map_of_remove(s0, i as int);
                }
                let mut entries: Vec<(String, V)> = Vec::new();
                std::mem::swap(&mut entries, &mut self.entries);
                let (_, old_value) = entries.remove(i);
                proof {
                    assert(entries@ == s0.remove(i as int));
                    assert(!has_key(entries@, key@)) by {
                        if has_key(entries@, key@) {
                            assert(map_of(entries@).contains_key(key@));
                        }
                    }
                    lemma_map_of_push(entries@, key, value);
                }
                entries.push((key, value));
                self.entries = entries;
                assert(self@ =~= old(self)@.insert(key@, value));
                Some(old_value)
            },
            None => {
                proof {
                    lemma_map_of_push(s0, key, value);
                }
                let mut entries: Vec<(String, V)> = Vec::new();
                std::mem::swap(&mut entries, &mut self.entries);
                entries.push((key, value));
                self.entries = entries;
                None
            },
        }
    }

    /// Removes `key`; returns the value it had, if it had one.
    pub fn remove(&mut self, key: &String) -> (r: Option<V>)
        ensures
            final(self)@ == old(self)@.remove(key@),
            match r {
                Some(v) => old(self)@.contains_key(key@) && v == old(self)@[key@],
                None => !old(self)@.contains_key(key@),
            },
    {
        proof {
            use_type_invariant(&*self);
        }
        let ghost s0 = self.entries@;
        match self.find(key) {
            Some(i) => {
                proof {
                    lemma_map_of_at(s0, i as int);
                    lemma_map_of_remove(s0, i as int);
                }
                let mut entries: Vec<(String, V)> = Vec::new();
                std::mem::swap(&mut entries, &mut self.entries);
                let (_, old_value) = entries.remove(i);
                self.entries = entries;
                Some(old_value)
            },
            None => {
                assert(old(self)@.remove(key@) =~= old(self)@);
                None
            },
        }
    }

    /// Removes every key.
    pub fn clear(&mut self)
        ensures
            final(self)@ == Map::<Seq<char>, V>::empty(),
    {
        self.entries = Vec::new();
        assert(self@ =~= Map::<Seq<char>, V>::empty());
    }

    /// The entries, each key once.
    pub fn entries(&self) -> (r: &[(String, V)])
        ensures
            r@ == self.entry_seq(),
            keys_distinct(r@),
            map_of(r@) == self@,
    {
        proof {
            use_type_invariant(self);
        }
        self.entries.as_slice()
    }
}

/// The map of entries with distinct keys has as many keys as entries.
pub proof fn lemma_map_of_len<V>(s: Seq<(String, V)>)
    requires
        keys_distinct(s),
    ensures
        map_of(s).dom().finite(),
        map_of(s).len() == s.len(),
    decreases s.len(),
{
    if s.len() == 0 {
        assert(map_of(s).dom() =~= Set::<Seq<char>>::empty());
    } else {
        let t = s.drop_last();
        let last = s.last();
        assert(keys_distinct(t)) by {
            assert forall|i: int, j: int|
                0 <= i < t.len() && 0 <= j < t.len() && i != j implies #[trigger] t[i].0@ != #[trigger] t[j].0@ by {
                assert(t[i] == s[i] && t[j] == s[j]);
            }
        }
        lemma_map_of_len(t);
        assert(!has_key(t, last.0@)) by {
            if has_key(t, last.0@) {
                let p = position_of(t, last.0@);
                assert(t[p] == s[p]);
                assert(s[p].0@ != s[s.len() - 1].0@);
            }
        }
        lemma_map_of_push(t, last.0, last.1);
        assert(t.push((last.0, last.1)) =~= s);
    }
}

} // verus!
