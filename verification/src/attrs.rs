//! A string-keyed map with at most one entry per key, kept in insertion order.

use vstd::prelude::*;
use crate::text::str_eq;

verus! {

/// Position of the entry whose key is `k`, searching from the end; -1 when there is none.
pub open spec fn key_index<V>(s: Seq<(Seq<char>, V)>, k: Seq<char>) -> int
    decreases s.len(),
{
    if s.len() == 0 {
        -1
    } else if s.last().0 == k {
        s.len() - 1
    } else {
        key_index(s.drop_last(), k)
    }
}

/// The value stored under `k`, if any.
pub open spec fn lookup<V>(s: Seq<(Seq<char>, V)>, k: Seq<char>) -> Option<V> {
    let i = key_index(s, k);
    if i < 0 { None } else { Some(s[i].1) }
}

/// The entries after storing `v` under `k`: an existing entry is replaced in place,
/// a new key is appended.
pub open spec fn store<V>(s: Seq<(Seq<char>, V)>, k: Seq<char>, v: V) -> Seq<(Seq<char>, V)> {
    let i = key_index(s, k);
    if i < 0 { s.push((k, v)) } else { s.update(i, (k, v)) }
}

/// No key occurs twice.
pub open spec fn keys_distinct<V>(s: Seq<(Seq<char>, V)>) -> bool {
    forall|i: int, j: int| 0 <= i < j < s.len() ==> s[i].0 != s[j].0
}

pub proof fn lemma_key_index<V>(s: Seq<(Seq<char>, V)>, k: Seq<char>)
    ensures
        -1 <= key_index(s, k) < s.len(),
        key_index(s, k) >= 0 ==> s[key_index(s, k)].0 == k,
        key_index(s, k) < 0 ==> forall|j: int| 0 <= j < s.len() ==> s[j].0 != k,
    decreases s.len(),
{
    if s.len() > 0 && s.last().0 != k {
        lemma_key_index(s.drop_last(), k);
        assert forall|j: int| 0 <= j < s.len() - 1 implies s[j] == s.drop_last()[j] by {}
    }
}

pub proof fn lemma_key_index_unique<V>(s: Seq<(Seq<char>, V)>, k: Seq<char>, i: int)
    requires
        keys_distinct(s),
        0 <= i < s.len(),
        s[i].0 == k,
    ensures
        key_index(s, k) == i,
    decreases s.len(),
{
    if i < s.len() - 1 {
        assert(s.last().0 != k);
        assert(keys_distinct(s.drop_last()));
        assert(s.drop_last()[i] == s[i]);
        lemma_key_index_unique(s.drop_last(), k, i);
    }
}

pub proof fn lemma_store_distinct<V>(s: Seq<(Seq<char>, V)>, k: Seq<char>, v: V)
    requires
        keys_distinct(s),
    ensures
        keys_distinct(store(s, k, v)),
        lookup(store(s, k, v), k) == Some(v),
{
    lemma_key_index(s, k);
    let t = store(s, k, v);
    let i = key_index(s, k);
    if i < 0 {
        assert(keys_distinct(t));
        lemma_key_index_unique(t, k, t.len() - 1);
    } else {
        assert(keys_distinct(t));
        lemma_key_index_unique(t, k, i);
    }
}

proof fn lemma_key_index_same_keys<V>(s: Seq<(Seq<char>, V)>, t: Seq<(Seq<char>, V)>, k: Seq<char>)
    requires
        s.len() == t.len(),
        forall|j: int| 0 <= j < s.len() ==> #[trigger] s[j].0 == t[j].0,
    ensures
        key_index(s, k) == key_index(t, k),
    decreases s.len(),
{
    if s.len() > 0 && s.last().0 != k {
        let s2 = s.drop_last();
        let t2 = t.drop_last();
        assert forall|j: int| 0 <= j < s2.len() implies #[trigger] s2[j].0 == t2[j].0 by {
            assert(s2[j] == s[j]);
            assert(t2[j] == t[j]);
        }
        lemma_key_index_same_keys(s2, t2, k);
    }
}

/// Storing under one key leaves what is stored under any other key.
pub proof fn lemma_store_other<V>(s: Seq<(Seq<char>, V)>, k: Seq<char>, v: V, k2: Seq<char>)
    requires
        k != k2,
    ensures
        lookup(store(s, k, v), k2) == lookup(s, k2),
{
    lemma_key_index(s, k);
    let i = key_index(s, k);
    let t = store(s, k, v);
    lemma_key_index(s, k2);
    let m = key_index(s, k2);
    if i < 0 {
        assert(t.drop_last() =~= s);
        assert(key_index(t, k2) == m);
        if m >= 0 {
            assert(t[m] == s[m]);
        }
    } else {
        assert forall|j: int| 0 <= j < s.len() implies #[trigger] s[j].0 == t[j].0 by {}
        lemma_key_index_same_keys(s, t, k2);
        if m >= 0 {
            assert(m != i);
            assert(t[m] == s[m]);
        }
    }
}

/// Storing under a key makes it the value stored there.
pub proof fn lemma_store_same<V>(s: Seq<(Seq<char>, V)>, k: Seq<char>, v: V)
    ensures
        lookup(store(s, k, v), k) == Some(v),
{
    lemma_key_index(s, k);
    let i = key_index(s, k);
    let t = store(s, k, v);
    if i >= 0 {
        assert forall|j: int| 0 <= j < s.len() implies #[trigger] s[j].0 == t[j].0 by {}
        lemma_key_index_same_keys(s, t, k);
    }
}

/// Map from strings to values; at most one entry per key, in the order keys were first stored.
#[derive(Debug, PartialEq)]
pub struct StrMap<V> {
    entries: Vec<(String, V)>,
}

impl<V> StrMap<V> {
    /// The entries, keys taken by their characters.
    pub closed spec fn entries(&self) -> Seq<(Seq<char>, V)> {
        self.entries@.map_values(|e: (String, V)| (e.0@, e.1))
    }

    #[verifier::type_invariant]
    spec fn well_formed(&self) -> bool {
        keys_distinct(self.entries())
    }

    /// An empty map.
    pub fn new() -> (m: Self)
        ensures
            m.entries() == Seq::<(Seq<char>, V)>::empty(),
    {
        let m = StrMap { entries: Vec::new() };
        assert(m.entries() =~= Seq::<(Seq<char>, V)>::empty());
        m
    }

    /// Number of entries.
    pub fn len(&self) -> (n: usize)
        ensures
            n == self.entries().len(),
    {
        self.entries.len()
    }

    /// The key of the `i`-th entry.
    pub fn key_at(&self, i: usize) -> (k: &String)
        requires
            i < self.entries().len(),
        ensures
            k@ == self.entries()[i as int].0,
    {
        &self.entries[i].0
    }

    /// Whether the map has no entry.
    pub fn is_empty(&self) -> (b: bool)
        ensures
            b == (self.entries().len() == 0),
    {
        self.entries.len() == 0
    }

    fn find(&self, key: &str) -> (r: Option<usize>)
        ensures
            r matches Some(i) ==> i == key_index(self.entries(), key@) && i < self.entries@.len()
                && self.entries()[i as int].0 == key@,
            r is None ==> key_index(self.entries(), key@) < 0,
    {
        let n = self.entries.len();
        let mut i = n;
        proof {
            lemma_key_index(self.entries(), key@);
            assert(self.entries().take(n as int) =~= self.entries());
        }
        while i > 0
            invariant
                i <= n,
                n == self.entries@.len(),
                key_index(self.entries(), key@) == key_index(self.entries().take(i as int), key@),
            decreases i,
        {
            let ghost t = self.entries().take(i as int);
            assert(t.last() == self.entries()[i - 1]);
            if str_eq(self.entries[i - 1].0.as_str(), key) {
                assert(t.last().0 == key@);
                return Some(i - 1);
            }
            assert(t.drop_last() =~= self.entries().take(i - 1));
            i = i - 1;
        }
        None
    }

    /// Whether some entry has key `key`.
    pub fn contains_key(&self, key: &str) -> (b: bool)
        ensures
            b == (lookup(self.entries(), key@) is Some),
    {
        self.find(key).is_some()
    }

    /// The value stored under `key`.
    pub fn get(&self, key: &str) -> (r: Option<&V>)
        ensures
            match r {
                Some(v) => lookup(self.entries(), key@) == Some(*v),
                None => lookup(self.entries(), key@) is None,
            },
    {
        match self.find(key) {
            Some(i) => Some(&self.entries[i].1),
            None => None,
        }
    }

    /// Stores `value` under `key`, returning the value it replaces.
    pub fn insert(&mut self, key: String, value: V) -> (old_value: Option<V>)
        ensures
            final(self).entries() == store(old(self).entries(), key@, value),
            old_value == lookup(old(self).entries(), key@),
    {
        proof { use_type_invariant(&*self); }
        let ghost k = key@;
        let ghost old_entries = self.entries();
        proof { lemma_store_distinct(old_entries, k, value); }
        match self.find(key.as_str()) {
            Some(i) => {
                let mut entries: Vec<(String, V)> = Vec::new();
                std::mem::swap(&mut entries, &mut self.entries);
                let (_, prev) = entries.remove(i);
                entries.insert(i, (key, value));
                proof {
                    lemma_key_index(old_entries, k);
                }
                assert(entries@.map_values(|e: (String, V)| (e.0@, e.1)) =~= store(old_entries, k, value));
                self.entries = entries;
                Some(prev)
            },
            None => {
                let mut entries: Vec<(String, V)> = Vec::new();
                std::mem::swap(&mut entries, &mut self.entries);
                entries.push((key, value));
                assert(entries@.map_values(|e: (String, V)| (e.0@, e.1)) =~= store(old_entries, k, value));
                self.entries = entries;
                None
            },
        }
    }

    /// A copy of the map: the same keys, in the same order, with cloned values.
    pub fn clone_map(&self) -> (m: Self)
        where V: Clone,
        ensures
            m.entries().len() == self.entries().len(),
            forall|i: int| 0 <= i < self.entries().len() ==> #[trigger] m.entries()[i].0 == self.entries()[i].0,
    {
        proof { use_type_invariant(self); }
        let mut entries: Vec<(String, V)> = Vec::new();
        let n = self.entries.len();
        let mut i: usize = 0;
        while i < n
            invariant
                n == self.entries@.len(),
                i <= n,
                keys_distinct(self.entries()),
                entries@.len() == i,
                forall|j: int| 0 <= j < i ==> #[trigger] entries@[j].0@ == self.entries@[j].0@,
            decreases n - i,
        {
            let k = self.entries[i].0.clone();
            let v = self.entries[i].1.clone();
            entries.push((k, v));
            i = i + 1;
        }
        let ghost es = entries@.map_values(|e: (String, V)| (e.0@, e.1));
        assert forall|a: int, b: int| 0 <= a < b < es.len() implies es[a].0 != es[b].0 by {
            assert(self.entries()[a].0 != self.entries()[b].0);
        }
        StrMap { entries }
    }

    /// The entry at position `i`, in insertion order.
    pub fn entry_at(&self, i: usize) -> (r: (&String, &V))
        requires
            i < self.entries().len(),
        ensures
            r.0@ == self.entries()[i as int].0,
            r.1 == self.entries()[i as int].1,
    {
        (&self.entries[i].0, &self.entries[i].1)
    }
}

impl<V: Clone> Clone for StrMap<V> {
    fn clone(&self) -> (m: Self)
        ensures
            m.entries().len() == self.entries().len(),
    {
        self.clone_map()
    }
}

} // verus!
