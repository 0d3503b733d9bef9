//! The key-value store: string keys, JSON values.

use crate::json::{clone_value, json_object, parse_object, pretty_json_object, pretty_object_bytes};
use serde_json::Value;
use vstd::prelude::*;

verus! {

/// Some entry of `s` has the key `k`.
pub open spec fn has_key(s: Seq<(String, Value)>, k: Seq<char>) -> bool {
    exists|i: int| 0 <= i < s.len() && #[trigger] s[i].0@ == k
}

/// No two entries of `s` share a key.
pub open spec fn distinct_keys(s: Seq<(String, Value)>) -> bool {
    forall|i: int, j: int|
        0 <= i < s.len() && 0 <= j < s.len() && i != j ==> #[trigger] s[i].0@ != #[trigger] s[j].0@
}

/// The map that a sequence of entries stands for.
pub open spec fn entries_map(s: Seq<(String, Value)>) -> Map<Seq<char>, Value> {
    Map::new(
        |k: Seq<char>| has_key(s, k),
        |k: Seq<char>| s[choose|i: int| 0 <= i < s.len() && #[trigger] s[i].0@ == k].1,
    )
}

/// An entry of a sequence with distinct keys is what the map holds for its key.
pub proof fn lemma_entry_in_map(s: Seq<(String, Value)>, i: int)
    requires
        distinct_keys(s),
        0 <= i < s.len(),
    ensures
        entries_map(s).contains_key(s[i].0@),
        entries_map(s)[s[i].0@] == s[i].1,
{
    let k = s[i].0@;
    assert(has_key(s, k));
    let j = choose|j: int| 0 <= j < s.len() && #[trigger] s[j].0@ == k;
    assert(s[j].0@ == k);
}

/// Removing an entry keeps the other keys distinct and drops its key from the map.
pub proof fn lemma_remove_entry(s: Seq<(String, Value)>, i: int)
    requires
        distinct_keys(s),
        0 <= i < s.len(),
    ensures
        distinct_keys(s.remove(i)),
        entries_map(s.remove(i)) == entries_map(s).remove(s[i].0@),
{
    let r = s.remove(i);
    assert forall|a: int, b: int|
        0 <= a < r.len() && 0 <= b < r.len() && a != b implies #[trigger] r[a].0@ != #[trigger] r[b].0@ by {
        let a0 = if a < i { a } else { a + 1 };
        let b0 = if b < i { b } else { b + 1 };
        assert(r[a] == s[a0]);
        assert(r[b] == s[b0]);
    }
    let m = entries_map(s).remove(s[i].0@);
    assert forall|k: Seq<char>| #[trigger] entries_map(r).contains_key(k) <==> m.contains_key(k) by {
        if has_key(r, k) {
            let a = choose|a: int| 0 <= a < r.len() && #[trigger] r[a].0@ == k;
            let a0 = if a < i { a } else { a + 1 };
            assert(r[a] == s[a0]);
            assert(s[a0].0@ == k);
            assert(has_key(s, k));
        }
        if m.contains_key(k) {
            let a0 = choose|a: int| 0 <= a < s.len() && #[trigger] s[a].0@ == k;
            assert(a0 != i);
            let a = if a0 < i { a0 } else { a0 - 1 };
            assert(r[a] == s[a0]);
            assert(has_key(r, k));
        }
    }
    assert forall|k: Seq<char>| #[trigger] entries_map(r).contains_key(k) implies entries_map(r)[k]
        == m[k] by {
        let a = choose|a: int| 0 <= a < r.len() && #[trigger] r[a].0@ == k;
        let a0 = if a < i { a } else { a + 1 };
        assert(r[a] == s[a0]);
        lemma_entry_in_map(r, a);
        lemma_entry_in_map(s, a0);
    }
    assert(entries_map(r) =~= m);
}

/// Appending an entry with a new key keeps the keys distinct and adds it to the map.
pub proof fn lemma_push_entry(s: Seq<(String, Value)>, e: (String, Value))
    requires
        distinct_keys(s),
        !has_key(s, e.0@),
    ensures
        distinct_keys(s.push(e)),
        entries_map(s.push(e)) == entries_map(s).insert(e.0@, e.1),
{
    let p = s.push(e);
    assert forall|a: int, b: int|
        0 <= a < p.len() && 0 <= b < p.len() && a != b implies #[trigger] p[a].0@ != #[trigger] p[b].0@ by {
        if a < s.len() && b < s.len() {
            assert(p[a] == s[a] && p[b] == s[b]);
        } else if a < s.len() {
            assert(p[a] == s[a]);
        } else {
            assert(p[b] == s[b]);
        }
    }
    let m = entries_map(s).insert(e.0@, e.1);
    assert forall|k: Seq<char>| #[trigger] entries_map(p).contains_key(k) <==> m.contains_key(k) by {
        if has_key(p, k) {
            let a = choose|a: int| 0 <= a < p.len() && #[trigger] p[a].0@ == k;
            if a < s.len() {
                assert(p[a] == s[a]);
                assert(has_key(s, k));
            }
        }
        if has_key(s, k) {
            let a = choose|a: int| 0 <= a < s.len() && #[trigger] s[a].0@ == k;
            assert(p[a] == s[a]);
            assert(has_key(p, k));
        }
        if k == e.0@ {
            assert(p[s.len() as int] == e);
            assert(has_key(p, k));
        }
    }
    assert forall|k: Seq<char>| #[trigger] entries_map(p).contains_key(k) implies entries_map(p)[k]
        == m[k] by {
        let a = choose|a: int| 0 <= a < p.len() && #[trigger] p[a].0@ == k;
        lemma_entry_in_map(p, a);
        if a < s.len() {
            assert(p[a] == s[a]);
            lemma_entry_in_map(s, a);
        } else {
            assert(p[a] == e);
        }
    }
    assert(entries_map(p) =~= m);
}

/// The store after a write of `value` under `key`, and the value that the write replaced.
pub open spec fn spec_write(m: Map<Seq<char>, Value>, key: Seq<char>, value: Value) -> (Map<
    Seq<char>,
    Value,
>, Option<Value>) {
    (m.insert(key, value), spec_read(m, key))
}

/// The value that the store holds under `key`, if any.
pub open spec fn spec_read(m: Map<Seq<char>, Value>, key: Seq<char>) -> Option<Value> {
    if m.contains_key(key) {
        Some(m[key])
    } else {
        None
    }
}

/// The store after deleting `key`, and the value that was removed.
pub open spec fn spec_delete(m: Map<Seq<char>, Value>, key: Seq<char>) -> (Map<
    Seq<char>,
    Value,
>, Option<Value>) {
    (m.remove(key), spec_read(m, key))
}

/// The data held by a JSON file: the object it holds, or nothing where the
/// file does not hold exactly one JSON object.
pub open spec fn loaded_map(bytes: Seq<u8>) -> Map<Seq<char>, Value> {
    match json_object(bytes) {
        Some(m) => m,
        None => Map::empty(),
    }
}

/// A map from string keys to JSON values, held in memory.
pub struct KvStore {
    entries: Vec<(String, Value)>,
}

impl View for KvStore {
    type V = Map<Seq<char>, Value>;

    closed spec fn view(&self) -> Map<Seq<char>, Value> {
        entries_map(self.entries@)
    }
}

impl KvStore {
    #[verifier::type_invariant]
    closed spec fn inv(self) -> bool {
        distinct_keys(self.entries@)
    }

    /// An empty store.
    pub fn new() -> (store: Self)
        ensures
            store@ == Map::<Seq<char>, Value>::empty(),
    {
        let store = KvStore { entries: Vec::new() };
        assert(store@ =~= Map::<Seq<char>, Value>::empty());
        store
    }

    /// The store that a JSON file holds: its object, or an empty store where
    /// the bytes hold no JSON object.
    pub fn from_json_bytes(bytes: &[u8]) -> (store: Self)
        ensures
            store@ == loaded_map(bytes@),
    {
        KvStore::from_parsed(parse_object(bytes))
    }

    /// The store that the result of parsing a JSON file gives: the parsed
    /// entries, or an empty store where the parse failed.
    pub fn from_parsed(parsed: Result<Vec<(String, Value)>, serde_json::Error>) -> (store: Self)
        requires
            parsed matches Ok(entries) ==> distinct_keys(entries@),
        ensures
            store@ == match parsed {
                Ok(entries) => entries_map(entries@),
                Err(_) => Map::<Seq<char>, Value>::empty(),
            },
    {
        match parsed {
            Ok(entries) => KvStore { entries },
            Err(_) => KvStore::new(),
        }
    }

    /// The pretty-printed JSON object that holds the store's entries.
    pub fn to_json_bytes(&self) -> (r: Result<Vec<u8>, serde_json::Error>)
        ensures
            r matches Ok(bytes) && bytes@ == pretty_json_object(self@),
    {
        proof {
            use_type_invariant(self);
        }
        pretty_object_bytes(&self.entries)
    }

    /// The number of keys in the store.
    pub fn len(&self) -> (n: usize)
        ensures
            n == self@.len(),
    {
        proof {
            use_type_invariant(self);
            lemma_entries_len(self.entries@);
        }
        self.entries.len()
    }

    /// The position of the entry for `key`, if there is one.
    fn find(&self, key: &String) -> (r: Option<usize>)
        ensures
            match r {
                Some(i) => i < self.entries.len() && self.entries@[i as int].0@ == key@,
                None => !self@.contains_key(key@),
            },
    {
        let mut i: usize = 0;
        while i < self.entries.len()
            invariant
                0 <= i <= self.entries.len(),
                forall|j: int| 0 <= j < i ==> #[trigger] self.entries@[j].0@ != key@,
            decreases self.entries.len() - i,
        {
            if self.entries[i].0 == *key {
                return Some(i);
            }
            i = i + 1;
        }
        None
    }

    /// Stores `value` under `key` and hands back the value it replaced.
    pub fn write(&mut self, key: &str, value: Value) -> (old_value: Option<Value>)
        ensures
            (final(self)@, old_value) == spec_write(old(self)@, key@, value),
            final(self)@ == old(self)@.insert(key@, value),
            old_value == if old(self)@.contains_key(key@) {
                Some(old(self)@[key@])
            } else {
                None
            },
    {
        proof {
            use_type_invariant(&*self);
        }
        let key = key.to_owned();
        let found = self.find(&key);
        let mut entries: Vec<(String, Value)> = Vec::new();
        std::mem::swap(&mut entries, &mut self.entries);
        let old_value = match found {
            Some(i) => {
                proof {
                    lemma_entry_in_map(entries@, i as int);
                    lemma_remove_entry(entries@, i as int);
                }
                let (_, old_value) = entries.remove(i);
                proof {
                    assert(!entries_map(entries@).contains_key(key@));
                    assert(!has_key(entries@, key@));
                    lemma_push_entry(entries@, (key, value));
                    assert(entries_map(entries@.push((key, value))) =~= old(self)@.insert(
                        key@,
                        value,
                    ));
                }
                entries.push((key, value));
                Some(old_value)
            },
            None => {
                proof {
                    lemma_push_entry(entries@, (key, value));
                }
                entries.push((key, value));
                None
            },
        };
        self.entries = entries;
        old_value
    }

    /// The value stored under `key`, if any.
    pub fn read(&self, key: &str) -> (value: Option<Value>)
        ensures
            value == spec_read(self@, key@),
            value == if self@.contains_key(key@) {
                Some(self@[key@])
            } else {
                None
            },
    {
        proof {
            use_type_invariant(self);
        }
        let key = key.to_owned();
        match self.find(&key) {
            Some(i) => {
                proof {
                    lemma_entry_in_map(self.entries@, i as int);
                }
                Some(clone_value(&self.entries[i].1))
            },
            None => None,
        }
    }

    /// Removes `key` and hands back the value it held.
    pub fn delete(&mut self, key: &str) -> (old_value: Option<Value>)
        ensures
            (final(self)@, old_value) == spec_delete(old(self)@, key@),
            final(self)@ == old(self)@.remove(key@),
            old_value == if old(self)@.contains_key(key@) {
                Some(old(self)@[key@])
            } else {
                None
            },
    {
        proof {
            use_type_invariant(&*self);
        }
        let key = key.to_owned();
        match self.find(&key) {
            Some(i) => {
                let mut entries: Vec<(String, Value)> = Vec::new();
                std::mem::swap(&mut entries, &mut self.entries);
                proof {
                    lemma_entry_in_map(entries@, i as int);
                    lemma_remove_entry(entries@, i as int);
                }
                let (_, old_value) = entries.remove(i);
                self.entries = entries;
                Some(old_value)
            },
            None => {
                proof {
                    assert(old(self)@.remove(key@) =~= old(self)@);
                }
                None
            },
        }
    }
}

/// A sequence of entries with distinct keys has as many entries as its map has keys.
pub proof fn lemma_entries_len(s: Seq<(String, Value)>)
    requires
        distinct_keys(s),
    ensures
        entries_map(s).dom().finite(),
        entries_map(s).len() == s.len(),
    decreases s.len(),
{
    if s.len() == 0 {
        assert(entries_map(s) =~= Map::<Seq<char>, Value>::empty());
    } else {
        let last = s.len() - 1;
        lemma_remove_entry(s, last);
        lemma_entries_len(s.remove(last));
        lemma_entry_in_map(s, last);
        let m = entries_map(s);
        assert(m.remove(s[last].0@).insert(s[last].0@, s[last].1) =~= m);
    }
}

} // verus!

verus! {

/// A read after a write of `value` under `key` gives back `value`.
pub proof fn law_read_after_write(m: Map<Seq<char>, Value>, key: Seq<char>, value: Value)
    ensures
        spec_read(spec_write(m, key, value).0, key) == Some(value),
{
}

/// A write under `key` leaves what every other key holds as it was.
pub proof fn law_write_keeps_other_keys(
    m: Map<Seq<char>, Value>,
    key: Seq<char>,
    value: Value,
    other: Seq<char>,
)
    requires
        other != key,
    ensures
        spec_read(spec_write(m, key, value).0, other) == spec_read(m, other),
{
}

/// A second write under a key hands back the value of the first.
pub proof fn law_write_reports_previous(
    m: Map<Seq<char>, Value>,
    key: Seq<char>,
    first: Value,
    second: Value,
)
    ensures
        spec_write(spec_write(m, key, first).0, key, second).1 == Some(first),
        spec_write(spec_write(m, key, first).0, key, second).0 == spec_write(m, key, second).0,
{
    assert(m.insert(key, first).insert(key, second) =~= m.insert(key, second));
}

/// After a delete of `key`, a read of it gives nothing, and a second delete
/// removes nothing.
pub proof fn law_read_after_delete(m: Map<Seq<char>, Value>, key: Seq<char>)
    ensures
        spec_read(spec_delete(m, key).0, key) is None,
        spec_delete(spec_delete(m, key).0, key) == (spec_delete(m, key).0, None::<Value>),
{
    assert(m.remove(key).remove(key) =~= m.remove(key));
}

/// A delete of `key` leaves what every other key holds as it was.
pub proof fn law_delete_keeps_other_keys(m: Map<Seq<char>, Value>, key: Seq<char>, other: Seq<char>)
    requires
        other != key,
    ensures
        spec_read(spec_delete(m, key).0, other) == spec_read(m, other),
{
}

/// A delete right after a write hands back the written value and leaves the
/// store without the key.
pub proof fn law_delete_after_write(m: Map<Seq<char>, Value>, key: Seq<char>, value: Value)
    ensures
        spec_delete(spec_write(m, key, value).0, key) == (m.remove(key), Some(value)),
{
    assert(m.insert(key, value).remove(key) =~= m.remove(key));
}

} // verus!
