//! Button records kept as they were found in a stored page, by the key they
//! were stored under: at most one record per key.

use crate::json::{json_view, Json};
use crate::text::str_eq;
use serde_json::Value;
use vstd::prelude::*;

verus! {

/// Whether some entry of `s` has the key `k`.
pub open spec fn has_key(s: Seq<(String, Value)>, k: Seq<char>) -> bool {
    exists|i: int| 0 <= i < s.len() && (#[trigger] s[i]).0@ == k
}

/// An index at which `s` has the key `k`, if it has one.
pub open spec fn index_of(s: Seq<(String, Value)>, k: Seq<char>) -> int {
    choose|i: int| 0 <= i < s.len() && (#[trigger] s[i]).0@ == k
}

/// No key occurs twice in `s`.
pub open spec fn distinct_keys(s: Seq<(String, Value)>) -> bool {
    forall|i: int, j: int|
        0 <= i < j < s.len() ==> (#[trigger] s[i]).0@ != (#[trigger] s[j]).0@
}

/// The map that the entries `s` stand for.
pub open spec fn entries_map(s: Seq<(String, Value)>) -> Map<Seq<char>, Json> {
    Map::new(|k: Seq<char>| has_key(s, k), |k: Seq<char>| json_view(s[index_of(s, k)].1))
}

/// In a sequence without repeated keys, the entry at `i` is what the map
/// holds under that entry's key.
pub proof fn lemma_entry_in_map(s: Seq<(String, Value)>, i: int)
    requires
        distinct_keys(s),
        0 <= i < s.len(),
    ensures
        has_key(s, s[i].0@),
        index_of(s, s[i].0@) == i,
        entries_map(s).contains_key(s[i].0@),
        entries_map(s)[s[i].0@] == json_view(s[i].1),
{
    let k = s[i].0@;
    let j = index_of(s, k);
    assert(0 <= j < s.len() && s[j].0@ == k);
    if j < i {
        assert(s[j].0@ != s[i].0@);
    } else if i < j {
        assert(s[i].0@ != s[j].0@);
    }
}

/// What one more entry with a new key does to the map.
pub proof fn lemma_push_entry(s: Seq<(String, Value)>, key: String, record: Value)
    requires
        distinct_keys(s),
        !has_key(s, key@),
    ensures
        distinct_keys(s.push((key, record))),
        entries_map(s.push((key, record))) == entries_map(s).insert(key@, json_view(record)),
{
    let t = s.push((key, record));
    assert forall|a: int, b: int| 0 <= a < b < t.len() implies (#[trigger] t[a]).0@ != (
    #[trigger] t[b]).0@ by {
        if b < s.len() {
            assert(s[a].0@ != s[b].0@);
        } else {
            assert(s[a].0@ == t[a].0@);
        }
    }
    assert forall|q: Seq<char>| has_key(t, q) == (q == key@ || has_key(s, q)) by {
        if has_key(t, q) {
            let i = index_of(t, q);
            if i < s.len() {
                assert(s[i].0@ == q);
            }
        }
        if has_key(s, q) {
            let i = index_of(s, q);
            assert(t[i].0@ == q);
        }
        if q == key@ {
            assert(t[s.len() as int].0@ == q);
        }
    }
    assert forall|q: Seq<char>| has_key(t, q) implies entries_map(t)[q] == entries_map(s).insert(
        key@,
        json_view(record),
    )[q] by {
        let i = index_of(t, q);
        lemma_entry_in_map(t, i);
        if q != key@ {
            lemma_entry_in_map(s, i);
        }
    }
    assert(entries_map(t) =~= entries_map(s).insert(key@, json_view(record)));
}

/// Entries without repeated keys stand for a map with as many keys.
proof fn lemma_entries_count(s: Seq<(String, Value)>)
    requires
        distinct_keys(s),
    ensures
        entries_map(s).dom().finite(),
        entries_map(s).dom().len() == s.len(),
    decreases s.len(),
{
    if s.len() == 0 {
        assert(entries_map(s).dom() =~= Set::empty());
    } else {
        let t = s.drop_last();
        assert(distinct_keys(t)) by {
            assert forall|i: int, j: int| 0 <= i < j < t.len() implies (#[trigger] t[i]).0@ != (
            #[trigger] t[j]).0@ by {
                assert(s[i].0@ != s[j].0@);
            }
        }
        if has_key(t, s.last().0@) {
            let i = index_of(t, s.last().0@);
            assert(s[i].0@ != s[s.len() - 1].0@);
        }
        lemma_push_entry(t, s.last().0, s.last().1);
        assert(t.push((s.last().0, s.last().1)) =~= s);
        lemma_entries_count(t);
    }
}

/// A finite map from keys to records.
pub struct RecordMap {
    entries: Vec<(String, Value)>,
}

impl View for RecordMap {
    type V = Map<Seq<char>, Json>;

    closed spec fn view(&self) -> Map<Seq<char>, Json> {
        entries_map(self.entries@)
    }
}

impl RecordMap {
    #[verifier::type_invariant]
    spec fn well_formed(&self) -> bool {
        distinct_keys(self.entries@)
    }

    /// The empty map.
    pub fn new() -> (r: Self)
        ensures
            r@ == Map::<Seq<char>, Json>::empty(),
    {
        let r = RecordMap { entries: Vec::new() };
        assert(r@ =~= Map::<Seq<char>, Json>::empty());
        r
    }

    /// The index of the entry with the key `key`, if there is one.
    fn find(&self, key: &str) -> (r: Option<usize>)
        ensures
            match r {
                Some(i) => i < self.entries@.len() && self.entries@[i as int].0@ == key@,
                None => !has_key(self.entries@, key@),
            },
    {
        let mut i: usize = 0;
        while i < self.entries.len()
            invariant
                i <= self.entries.len(),
                forall|j: int| 0 <= j < i ==> (#[trigger] self.entries@[j]).0@ != key@,
            decreases self.entries.len() - i,
        {
            if str_eq(self.entries[i].0.as_str(), key) {
                return Some(i);
            }
            i += 1;
        }
        None
    }

    /// The number of records.
    pub fn len(&self) -> (r: usize)
        ensures
            self@.dom().finite(),
            r == self@.len(),
    {
        proof {
            use_type_invariant(self);
            lemma_entries_count(self.entries@);
        }
        self.entries.len()
    }

    /// Whether a record stands under `key`.
    pub fn contains_key(&self, key: &str) -> (r: bool)
        ensures
            r == self@.contains_key(key@),
    {
        self.find(key).is_some()
    }

    /// The record under `key`, if there is one.
    pub fn get(&self, key: &str) -> (r: Option<&Value>)
        ensures
            match r {
                Some(record) => self@.contains_key(key@) && json_view(*record) == self@[key@],
                None => !self@.contains_key(key@),
            },
    {
        proof {
            use_type_invariant(self);
        }
        match self.find(key) {
            Some(i) => {
                proof {
                    lemma_entry_in_map(self.entries@, i as int);
                }
                Some(&self.entries[i].1)
            },
            None => None,
        }
    }

    /// Puts `record` under `key` unless a record stands there already, and
    /// says whether it did.
    pub fn insert_new(&mut self, key: String, record: Value) -> (r: bool)
        ensures
            r == !old(self)@.contains_key(key@),
            final(self)@ == if r {
                old(self)@.insert(key@, json_view(record))
            } else {
                old(self)@
            },
    {
        proof {
            use_type_invariant(&*self);
        }
        if self.find(key.as_str()).is_some() {
            return false;
        }
        let mut entries: Vec<(String, Value)> = Vec::new();
        core::mem::swap(&mut self.entries, &mut entries);
        proof {
            lemma_push_entry(entries@, key, record);
        }
        entries.push((key, record));
        self.entries = entries;
        true
    }

    /// The records with their keys, each key once.
    pub fn into_entries(self) -> (r: Vec<(String, Value)>)
        ensures
            distinct_keys(r@),
            entries_map(r@) == self@,
    {
        proof {
            use_type_invariant(&self);
        }
        self.entries
    }

    /// The records with their keys, each key once.
    pub fn entries(&self) -> (r: &Vec<(String, Value)>)
        ensures
            distinct_keys(r@),
            entries_map(r@) == self@,
    {
        proof {
            use_type_invariant(self);
        }
        &self.entries
    }
}

} // verus!
