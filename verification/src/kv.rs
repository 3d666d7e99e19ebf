//! An ordered key-value map with string keys, kept sorted by key (code point order, which
//! is the byte order of the keys' UTF-8 encodings), with prefix scans.

use vstd::prelude::*;
use crate::attrs::{key_index, keys_distinct, lookup, lemma_key_index, lemma_key_index_unique};
use crate::text::{
    has_prefix, lemma_lex_irreflexive, lemma_lex_total, lemma_lex_transitive, seq_lex_lt,
    str_eq, str_lt, str_starts_with,
};

verus! {

/// The keys are in strictly increasing order.
pub open spec fn sorted<V>(e: Seq<(Seq<char>, V)>) -> bool {
    forall|i: int, j: int| 0 <= i < j < e.len() ==> seq_lex_lt(#[trigger] e[i].0, #[trigger] e[j].0)
}

/// Sorted keys are distinct.
pub proof fn lemma_sorted_distinct<V>(e: Seq<(Seq<char>, V)>)
    requires
        sorted(e),
    ensures
        keys_distinct(e),
{
    assert forall|i: int, j: int| 0 <= i < j < e.len() implies e[i].0 != e[j].0 by {
        if e[i].0 == e[j].0 {
            lemma_lex_irreflexive(e[i].0);
        }
    }
}

/// The number of leading keys before `k`: where `k` is, or would be inserted.
pub open spec fn rank<V>(e: Seq<(Seq<char>, V)>, k: Seq<char>) -> int
    decreases e.len(),
{
    if e.len() == 0 {
        0
    } else if seq_lex_lt(e[0].0, k) {
        1 + rank(e.subrange(1, e.len() as int), k)
    } else {
        0
    }
}

proof fn lemma_rank_bounds<V>(e: Seq<(Seq<char>, V)>, k: Seq<char>)
    ensures
        0 <= rank(e, k) <= e.len(),
        forall|j: int| 0 <= j < rank(e, k) ==> seq_lex_lt(#[trigger] e[j].0, k),
        rank(e, k) < e.len() ==> !seq_lex_lt(e[rank(e, k)].0, k),
    decreases e.len(),
{
    if e.len() > 0 && seq_lex_lt(e[0].0, k) {
        let t = e.subrange(1, e.len() as int);
        lemma_rank_bounds(t, k);
        assert forall|j: int| 0 <= j < rank(e, k) implies seq_lex_lt(#[trigger] e[j].0, k) by {
            if j > 0 {
                assert(e[j] == t[j - 1]);
            }
        }
    }
}

/// The entries after storing `v` under `k`: an existing entry is replaced, a new one is put
/// in its place in the order.
pub open spec fn put_sorted<V>(e: Seq<(Seq<char>, V)>, k: Seq<char>, v: V) -> Seq<(Seq<char>, V)> {
    let i = rank(e, k);
    if i < e.len() && e[i].0 == k {
        e.update(i, (k, v))
    } else {
        e.insert(i, (k, v))
    }
}

/// The entries after removing the one under `k`, if any.
pub open spec fn remove_sorted<V>(e: Seq<(Seq<char>, V)>, k: Seq<char>) -> Seq<(Seq<char>, V)> {
    let i = rank(e, k);
    if i < e.len() && e[i].0 == k {
        e.remove(i)
    } else {
        e
    }
}

/// The end of the run of keys with prefix `p` that starts at `start`.
pub open spec fn run_end<V>(e: Seq<(Seq<char>, V)>, start: int, p: Seq<char>) -> int
    decreases e.len() - start,
{
    if start < 0 || start >= e.len() {
        start
    } else if has_prefix(e[start].0, p) {
        run_end(e, start + 1, p)
    } else {
        start
    }
}

proof fn lemma_run_end<V>(e: Seq<(Seq<char>, V)>, start: int, p: Seq<char>)
    requires
        0 <= start <= e.len(),
    ensures
        start <= run_end(e, start, p) <= e.len(),
        forall|m: int| start <= m < run_end(e, start, p) ==> has_prefix(#[trigger] e[m].0, p),
        run_end(e, start, p) < e.len() ==> !has_prefix(e[run_end(e, start, p)].0, p),
    decreases e.len() - start,
{
    if start < e.len() && has_prefix(e[start].0, p) {
        lemma_run_end(e, start + 1, p);
    }
}

/// Map from strings to values, sorted by key.
#[derive(Debug)]
pub struct SortedMap<V> {
    entries: Vec<(String, V)>,
}

impl<V: Clone> Clone for SortedMap<V> {
    /// A copy with the same keys, in the same order, each value cloned.
    fn clone(&self) -> (c: Self)
        ensures
            c.entries().len() == self.entries().len(),
            forall|i: int| 0 <= i < self.entries().len() ==> (#[trigger] c.entries()[i]).0 == self.entries()[i].0,
    {
        proof { use_type_invariant(self); }
        let mut out: Vec<(String, V)> = Vec::new();
        let mut i: usize = 0;
        while i < self.entries.len()
            invariant
                i <= self.entries@.len(),
                out@.len() == i,
                forall|k: int| 0 <= k < i ==> (#[trigger] out@[k]).0@ == self.entries@[k].0@,
            decreases self.entries@.len() - i,
        {
            let key = self.entries[i].0.clone();
            let value = self.entries[i].1.clone();
            out.push((key, value));
            i = i + 1;
        }
        let ghost ce = out@.map_values(|e: (String, V)| (e.0@, e.1));
        assert forall|a: int, b: int| 0 <= a < b < ce.len() implies seq_lex_lt(#[trigger] ce[a].0, #[trigger] ce[b].0) by {
            assert(ce[a].0 == self.entries()[a].0);
            assert(ce[b].0 == self.entries()[b].0);
        }
        SortedMap { entries: out }
    }
}

impl<V> SortedMap<V> {
    /// The entries, keys taken by their characters, in key order.
    pub closed spec fn entries(&self) -> Seq<(Seq<char>, V)> {
        self.entries@.map_values(|e: (String, V)| (e.0@, e.1))
    }

    #[verifier::type_invariant]
    spec fn well_formed(&self) -> bool {
        sorted(self.entries())
    }

    /// An empty map.
    pub fn new() -> (m: Self)
        ensures
            m.entries() == Seq::<(Seq<char>, V)>::empty(),
    {
        let m = SortedMap { entries: Vec::new() };
        assert(m.entries() =~= Seq::<(Seq<char>, V)>::empty());
        m
    }

    /// Number of entries.
    pub fn len(&self) -> (n: usize)
        ensures
            n == self.entries().len(),
            sorted(self.entries()),
    {
        proof { use_type_invariant(self); }
        self.entries.len()
    }

    /// The position of the first key not before `key`.
    pub fn seek(&self, key: &str) -> (i: usize)
        ensures
            i == rank(self.entries(), key@),
            i <= self.entries().len(),
            forall|j: int| 0 <= j < i ==> seq_lex_lt(#[trigger] self.entries()[j].0, key@),
            i < self.entries().len() ==> !seq_lex_lt(self.entries()[i as int].0, key@),
    {
        proof { use_type_invariant(self); }
        let ghost e = self.entries();
        let mut i: usize = 0;
        while i < self.entries.len() && str_lt(self.entries[i].0.as_str(), key)
            invariant
                e == self.entries(),
                sorted(e),
                i <= e.len(),
                forall|j: int| 0 <= j < i ==> seq_lex_lt(#[trigger] e[j].0, key@),
            decreases e.len() - i,
        {
            i = i + 1;
        }
        proof {
            lemma_rank_bounds(e, key@);
            let r = rank(e, key@);
            if r != i {
                if r < i {
                    assert(seq_lex_lt(e[r].0, key@));
                } else {
                    assert(seq_lex_lt(e[i as int].0, key@));
                }
            }
        }
        i
    }

    /// The key at position `i`.
    pub fn key_at(&self, i: usize) -> (k: &String)
        requires
            i < self.entries().len(),
        ensures
            k@ == self.entries()[i as int].0,
    {
        &self.entries[i].0
    }

    /// The value at position `i`.
    pub fn value_at(&self, i: usize) -> (v: &V)
        requires
            i < self.entries().len(),
        ensures
            *v == self.entries()[i as int].1,
    {
        &self.entries[i].1
    }

    /// The value stored under `key`.
    pub fn get(&self, key: &str) -> (r: Option<&V>)
        ensures
            match r {
                Some(v) => lookup(self.entries(), key@) == Some(*v),
                None => lookup(self.entries(), key@) is None,
            },
    {
        proof {
            use_type_invariant(self);
            lemma_sorted_distinct(self.entries());
            lemma_key_index(self.entries(), key@);
        }
        let i = self.seek(key);
        if i < self.entries.len() && str_eq(self.entries[i].0.as_str(), key) {
            proof { lemma_key_index_unique(self.entries(), key@, i as int); }
            Some(&self.entries[i].1)
        } else {
            proof {
                if key_index(self.entries(), key@) >= 0 {
                    let k = key_index(self.entries(), key@);
                    if k < i {
                        lemma_lex_irreflexive(key@);
                    } else if k > i {
                        lemma_lex_total(self.entries()[i as int].0, key@);
                    }
                }
            }
            None
        }
    }

    /// The end of the run of keys with prefix `p` that starts at `start`.
    pub fn prefix_end(&self, start: usize, p: &str) -> (j: usize)
        requires
            start <= self.entries().len(),
        ensures
            j == run_end(self.entries(), start as int, p@),
            start <= j <= self.entries().len(),
            forall|m: int| start <= m < j ==> has_prefix(#[trigger] self.entries()[m].0, p@),
            j < self.entries().len() ==> !has_prefix(self.entries()[j as int].0, p@),
    {
        let ghost e = self.entries();
        let mut j: usize = start;
        while j < self.entries.len() && str_starts_with(self.entries[j].0.as_str(), p)
            invariant
                e == self.entries(),
                start <= j <= e.len(),
                forall|m: int| start <= m < j ==> has_prefix(#[trigger] e[m].0, p@),
            decreases e.len() - j,
        {
            j = j + 1;
        }
        proof {
            lemma_run_end(e, start as int, p@);
            let r = run_end(e, start as int, p@);
            if r != j {
                if r < j {
                    assert(has_prefix(e[r].0, p@));
                } else {
                    assert(has_prefix(e[j as int].0, p@));
                }
            }
        }
        j
    }

    /// Stores `value` under `key`, replacing any value there.
    pub fn put(&mut self, key: String, value: V)
        ensures
            final(self).entries() == put_sorted(old(self).entries(), key@, value),
            lookup(final(self).entries(), key@) == Some(value),
            forall|k: Seq<char>| k != key@ ==> lookup(#[trigger] final(self).entries(), k) == lookup(old(self).entries(), k),
    {
        proof { use_type_invariant(&*self); }
        let ghost e = self.entries();
        let ghost k = key@;
        let i = self.seek(key.as_str());
        let mut entries: Vec<(String, V)> = Vec::new();
        std::mem::swap(&mut entries, &mut self.entries);
        if i < entries.len() && str_eq(entries[i].0.as_str(), key.as_str()) {
            entries.remove(i);
            entries.insert(i, (key, value));
        } else {
            entries.insert(i, (key, value));
        }
        let ghost e2 = entries@.map_values(|x: (String, V)| (x.0@, x.1));
        assert(e2 =~= put_sorted(e, k, value));
        proof { lemma_put_sorted(e, k, value); }
        self.entries = entries;
    }

    /// Removes the entry under `key`, if any.
    pub fn remove(&mut self, key: &str)
        ensures
            final(self).entries() == remove_sorted(old(self).entries(), key@),
            lookup(final(self).entries(), key@) is None,
            forall|k: Seq<char>| k != key@ ==> lookup(#[trigger] final(self).entries(), k) == lookup(old(self).entries(), k),
    {
        proof { use_type_invariant(&*self); }
        let ghost e = self.entries();
        let i = self.seek(key);
        if i < self.entries.len() && str_eq(self.entries[i].0.as_str(), key) {
            let mut entries: Vec<(String, V)> = Vec::new();
            std::mem::swap(&mut entries, &mut self.entries);
            entries.remove(i);
            let ghost e2 = entries@.map_values(|x: (String, V)| (x.0@, x.1));
            assert(e2 =~= remove_sorted(e, key@));
            proof { lemma_remove_sorted(e, key@); }
            self.entries = entries;
        } else {
            proof { lemma_remove_sorted(e, key@); }
        }
    }
}

proof fn lemma_rank<V>(e: Seq<(Seq<char>, V)>, k: Seq<char>)
    requires
        sorted(e),
    ensures
        0 <= rank(e, k) <= e.len(),
        forall|j: int| 0 <= j < rank(e, k) ==> seq_lex_lt(#[trigger] e[j].0, k),
        rank(e, k) < e.len() ==> !seq_lex_lt(e[rank(e, k)].0, k),
        forall|j: int| rank(e, k) < j < e.len() ==> seq_lex_lt(k, #[trigger] e[j].0),
        rank(e, k) < e.len() && e[rank(e, k)].0 != k ==> seq_lex_lt(k, e[rank(e, k)].0),
        forall|j: int| 0 <= j < e.len() && e[j].0 == k ==> j == rank(e, k),
{
    lemma_rank_bounds(e, k);
    let r = rank(e, k);
    if r < e.len() && e[r].0 != k {
        lemma_lex_total(e[r].0, k);
    }
    assert forall|j: int| rank(e, k) < j < e.len() implies seq_lex_lt(k, #[trigger] e[j].0) by {
        assert(seq_lex_lt(e[r].0, e[j].0));
        if e[r].0 == k {
        } else {
            lemma_lex_total(e[r].0, k);
            lemma_lex_transitive(k, e[r].0, e[j].0);
        }
    }
    assert forall|j: int| 0 <= j < e.len() && e[j].0 == k implies j == rank(e, k) by {
        if j < r {
            lemma_lex_irreflexive(k);
        } else if j > r {
            lemma_lex_irreflexive(k);
        }
    }
}

pub proof fn lemma_put_sorted<V>(e: Seq<(Seq<char>, V)>, k: Seq<char>, v: V)
    requires
        sorted(e),
    ensures
        sorted(put_sorted(e, k, v)),
        lookup(put_sorted(e, k, v), k) == Some(v),
        forall|k2: Seq<char>| k2 != k ==> lookup(#[trigger] put_sorted(e, k, v), k2) == lookup(e, k2),
{
    lemma_rank(e, k);
    let i = rank(e, k);
    let e2 = put_sorted(e, k, v);
    let replace = i < e.len() && e[i].0 == k;
    assert forall|a: int, b: int| 0 <= a < b < e2.len() implies seq_lex_lt(#[trigger] e2[a].0, #[trigger] e2[b].0) by {
        if replace {
            assert(e2[a].0 == e[a].0);
            assert(e2[b].0 == e[b].0);
            assert(seq_lex_lt(e[a].0, e[b].0));
        } else if b < i {
            assert(e2[a] == e[a]);
            assert(e2[b] == e[b]);
            assert(seq_lex_lt(e[a].0, e[b].0));
        } else if b == i {
            assert(e2[a] == e[a]);
            assert(seq_lex_lt(e[a].0, k));
        } else if a < i {
            assert(e2[a] == e[a]);
            assert(e2[b] == e[b - 1]);
            assert(seq_lex_lt(e[a].0, e[b - 1].0));
        } else if a == i {
            assert(e2[b] == e[b - 1]);
            assert(seq_lex_lt(k, e[b - 1].0));
        } else {
            assert(e2[a] == e[a - 1]);
            assert(e2[b] == e[b - 1]);
            assert(seq_lex_lt(e[a - 1].0, e[b - 1].0));
        }
    }
    lemma_sorted_distinct(e);
    lemma_sorted_distinct(e2);
    lemma_key_index_unique(e2, k, i);
    assert forall|k2: Seq<char>| k2 != k implies lookup(#[trigger] put_sorted(e, k, v), k2) == lookup(e, k2) by {
        lemma_key_index(e, k2);
        lemma_key_index(e2, k2);
        let ki = key_index(e, k2);
        let ki2 = key_index(e2, k2);
        if ki >= 0 {
            let at = if replace || ki < i { ki } else { ki + 1 };
            assert(e2[at] == e[ki]);
            lemma_key_index_unique(e2, k2, at);
        } else if ki2 >= 0 {
            if replace || ki2 < i {
                assert(e[ki2].0 == k2);
            } else if ki2 > i {
                assert(e[ki2 - 1].0 == k2);
            }
        }
    }
}

proof fn lemma_remove_order<V>(e: Seq<(Seq<char>, V)>, k: Seq<char>)
    requires
        sorted(e),
    ensures
        sorted(remove_sorted(e, k)),
{
    lemma_rank_bounds(e, k);
    let i = rank(e, k);
    let e2 = remove_sorted(e, k);
    let found = i < e.len() && e[i].0 == k;
    if found {
        assert forall|a: int, b: int| 0 <= a < b < e2.len() implies seq_lex_lt(#[trigger] e2[a].0, #[trigger] e2[b].0) by {
            if b < i {
                assert(e2[a] == e[a]);
                assert(e2[b] == e[b]);
                assert(seq_lex_lt(e[a].0, e[b].0));
            } else if a < i {
                assert(e2[a] == e[a]);
                assert(e2[b] == e[b + 1]);
                assert(seq_lex_lt(e[a].0, e[b + 1].0));
            } else {
                assert(e2[a] == e[a + 1]);
                assert(e2[b] == e[b + 1]);
                assert(seq_lex_lt(e[a + 1].0, e[b + 1].0));
            }
        }
    }
}

pub proof fn lemma_remove_sorted<V>(e: Seq<(Seq<char>, V)>, k: Seq<char>)
    requires
        sorted(e),
    ensures
        sorted(remove_sorted(e, k)),
        lookup(remove_sorted(e, k), k) is None,
        forall|k2: Seq<char>| k2 != k ==> lookup(#[trigger] remove_sorted(e, k), k2) == lookup(e, k2),
{
    lemma_rank(e, k);
    lemma_remove_order(e, k);
    let i = rank(e, k);
    let e2 = remove_sorted(e, k);
    let found = i < e.len() && e[i].0 == k;
    lemma_sorted_distinct(e);
    lemma_sorted_distinct(e2);
    lemma_key_index(e2, k);
    if key_index(e2, k) >= 0 {
        let j = key_index(e2, k);
        if found {
            if j < i {
                assert(e2[j] == e[j]);
            } else {
                assert(e2[j] == e[j + 1]);
            }
        } else {
            assert(e2[j] == e[j]);
        }
    }
    assert forall|k2: Seq<char>| k2 != k implies lookup(#[trigger] remove_sorted(e, k), k2) == lookup(e, k2) by {
        lemma_key_index(e, k2);
        lemma_key_index(e2, k2);
        let ki = key_index(e, k2);
        let ki2 = key_index(e2, k2);
        if ki >= 0 {
            if found {
                let at = if ki < i { ki } else { ki - 1 };
                assert(e2[at] == e[ki]);
                lemma_key_index_unique(e2, k2, at);
            } else {
                lemma_key_index_unique(e2, k2, ki);
            }
        } else if ki2 >= 0 {
            if !found || ki2 < i {
                assert(e2[ki2] == e[ki2]);
            } else {
                assert(e2[ki2] == e[ki2 + 1]);
            }
        }
    }
}

} // verus!
