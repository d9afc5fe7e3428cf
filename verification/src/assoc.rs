//! A string-keyed map kept as a list of entries in first-insertion order.
use vstd::prelude::*;
use crate::text::str_eq;

verus! {

/// Entries as plain character sequences.
pub type Entries = Seq<(Seq<char>, Seq<char>)>;

/// The first index at or after `i` whose key is `k`.
pub open spec fn key_index_from(es: Entries, k: Seq<char>, i: int) -> Option<int>
    decreases es.len() - i,
{
    if i < 0 || i >= es.len() {
        None
    } else if es[i].0 == k {
        Some(i)
    } else {
        key_index_from(es, k, i + 1)
    }
}

/// The first index whose key is `k`.
pub open spec fn key_index(es: Entries, k: Seq<char>) -> Option<int> {
    key_index_from(es, k, 0)
}

/// The value stored under `k`.
pub open spec fn lookup(es: Entries, k: Seq<char>) -> Option<Seq<char>> {
    match key_index(es, k) {
        Some(i) => Some(es[i].1),
        None => None,
    }
}

/// `es` after storing `v` under `k`: an existing entry keeps its place and
/// takes the new value, a new key goes to the end.
pub open spec fn assoc_insert(es: Entries, k: Seq<char>, v: Seq<char>) -> Entries {
    match key_index(es, k) {
        Some(i) => es.update(i, (k, v)),
        None => es.push((k, v)),
    }
}

pub proof fn lemma_key_index_from(es: Entries, k: Seq<char>, i: int)
    requires
        0 <= i,
    ensures
        key_index_from(es, k, i) matches Some(j) ==> i <= j < es.len() && es[j].0 == k
            && forall|m: int| i <= m < j ==> es[m].0 != k,
        key_index_from(es, k, i) is None ==> forall|m: int| i <= m < es.len() ==> es[m].0 != k,
    decreases es.len() - i,
{
    if i < es.len() && es[i].0 != k {
        lemma_key_index_from(es, k, i + 1);
    }
}

/// A map from strings to strings; iteration follows first insertion.
#[derive(Debug, Clone)]
pub struct StringMap {
    entries: Vec<(String, String)>,
}

impl View for StringMap {
    type V = Entries;

    closed spec fn view(&self) -> Entries {
        self.entries@.map_values(|e: (String, String)| (e.0@, e.1@))
    }
}

impl StringMap {
    pub fn new() -> (m: StringMap)
        ensures
            m@ == Seq::<(Seq<char>, Seq<char>)>::empty(),
    {
        let m = StringMap { entries: Vec::new() };
        assert(m@ =~= Seq::<(Seq<char>, Seq<char>)>::empty());
        m
    }

    pub fn len(&self) -> (n: usize)
        ensures
            n == self@.len(),
    {
        self.entries.len()
    }

    /// The index of the entry whose key is `k`.
    pub fn index_of(&self, k: &str) -> (r: Option<usize>)
        ensures
            r matches Some(i) ==> key_index(self@, k@) == Some(i as int),
            r is None ==> key_index(self@, k@) is None,
    {
        let mut i: usize = 0;
        while i < self.entries.len()
            invariant
                0 <= i <= self.entries@.len(),
                self@.len() == self.entries@.len(),
                key_index(self@, k@) == key_index_from(self@, k@, i as int),
            decreases self.entries.len() - i,
        {
            if str_eq(self.entries[i].0.as_str(), k) {
                assert(self@[i as int].0 == self.entries@[i as int].0@);
                return Some(i);
            }
            i += 1;
        }
        None
    }

    /// The value stored under `k`, as `HashMap::get` gives it.
    pub fn get(&self, k: &str) -> (r: Option<&String>)
        ensures
            r matches Some(v) ==> lookup(self@, k@) == Some(v@),
            r is None ==> lookup(self@, k@) is None,
    {
        proof {
            lemma_key_index_from(self@, k@, 0);
        }
        match self.index_of(k) {
            Some(i) => Some(&self.entries[i].1),
            None => None,
        }
    }

    /// The key and value of entry `i`.
    pub fn entry_at(&self, i: usize) -> (r: (&String, &String))
        requires
            i < self@.len(),
        ensures
            (r.0@, r.1@) == self@[i as int],
    {
        (&self.entries[i].0, &self.entries[i].1)
    }

    /// Stores `v` under `k`, replacing an earlier value.
    pub fn insert(&mut self, k: String, v: String)
        ensures
            final(self)@ == assoc_insert(old(self)@, k@, v@),
    {
        proof {
            lemma_key_index_from(self@, k@, 0);
        }
        match self.index_of(k.as_str()) {
            Some(i) => {
                let ghost kv = (k@, v@);
                self.entries.set(i, (k, v));
                assert(self@ =~= assoc_insert(old(self)@, kv.0, kv.1));
            },
            None => {
                let ghost kv = (k@, v@);
                self.entries.push((k, v));
                assert(self@ =~= assoc_insert(old(self)@, kv.0, kv.1));
            },
        }
    }
}

} // verus!
