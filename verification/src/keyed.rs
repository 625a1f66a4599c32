//! A small map from text keys to values, kept as a list in which every key
//! occurs at most once.
use vstd::prelude::*;
use crate::text::str_eq;

verus! {

/// Entries by key; each key at most once.
pub struct Keyed<V> {
    pub entries: Vec<(String, V)>,
}

/// The value stored under `k`, if any.
pub open spec fn lookup<V>(v: Seq<(String, V)>, k: Seq<char>) -> Option<V> {
    if exists|i: int| 0 <= i < v.len() && (#[trigger] v[i]).0@ == k {
        Some(v[choose|i: int| 0 <= i < v.len() && (#[trigger] v[i]).0@ == k].1)
    } else {
        None
    }
}

pub open spec fn keys_unique<V>(v: Seq<(String, V)>) -> bool {
    forall|a: int, b: int| 0 <= a < b < v.len() ==> (#[trigger] v[a]).0@ != (#[trigger] v[b]).0@
}

/// In a list with unique keys, the entry at `i` is what its key looks up.
pub proof fn lemma_lookup_at<V>(v: Seq<(String, V)>, i: int)
    requires
        keys_unique(v),
        0 <= i < v.len(),
    ensures
        lookup(v, v[i].0@) == Some(v[i].1),
{
    let k = v[i].0@;
    let j = choose|j: int| 0 <= j < v.len() && (#[trigger] v[j]).0@ == k;
    if j != i {
        if j < i { assert(v[j].0@ != v[i].0@); } else { assert(v[i].0@ != v[j].0@); }
    }
}

impl<V> Keyed<V> {
    pub open spec fn wf(&self) -> bool {
        keys_unique(self.entries@)
    }

    pub open spec fn get_spec(&self, k: Seq<char>) -> Option<V> {
        lookup(self.entries@, k)
    }

    /// The empty map.
    pub fn new() -> (m: Self)
        ensures
            m.wf(),
            m.entries@.len() == 0,
            forall|k: Seq<char>| m.get_spec(k) is None,
    {
        Keyed { entries: Vec::new() }
    }

    /// Position of key `k`, if stored.
    pub fn position(&self, k: &str) -> (r: Option<usize>)
        ensures
            match r {
                Some(i) => i < self.entries@.len() && self.entries@[i as int].0@ == k@,
                None => forall|j: int| 0 <= j < self.entries@.len() ==> (#[trigger] self.entries@[j]).0@ != k@,
            },
    {
        let mut i: usize = 0;
        while i < self.entries.len()
            invariant
                i <= self.entries@.len(),
                forall|j: int| 0 <= j < i ==> (#[trigger] self.entries@[j]).0@ != k@,
            decreases self.entries@.len() - i,
        {
            if str_eq(self.entries[i].0.as_str(), k) {
                return Some(i);
            }
            i = i + 1;
        }
        None
    }

    /// The value under `k`.
    pub fn get(&self, k: &str) -> (r: Option<&V>)
        requires
            self.wf(),
        ensures
            match r {
                Some(v) => self.get_spec(k@) == Some(*v),
                None => self.get_spec(k@) is None,
            },
    {
        match self.position(k) {
            Some(i) => {
                proof { lemma_lookup_at(self.entries@, i as int); }
                Some(&self.entries[i].1)
            },
            None => None,
        }
    }

    /// Stores `v` under `k`, replacing what was there; other keys keep
    /// their values.
    pub fn insert(&mut self, k: String, v: V)
        requires
            old(self).wf(),
        ensures
            final(self).wf(),
            final(self).get_spec(k@) == Some(v),
            forall|q: Seq<char>| q != k@ ==> final(self).get_spec(q) == old(self).get_spec(q),
    {
        let ghost v0 = self.entries@;
        let ghost kv = k@;
        let ghost val = v;
        let pos = self.position(k.as_str());
        match pos {
            Some(i) => {
                self.entries.set(i, (k, v));
            },
            None => {
                self.entries.push((k, v));
            },
        }
        let ghost v1 = self.entries@;
        let ghost q: int = match pos { Some(i) => i as int, None => v0.len() as int };
        proof {
            assert(v1[q].0@ == kv && v1[q].1 == val);
            assert(forall|j: int| 0 <= j < v0.len() && j != q ==> v1[j] == v0[j]);
            assert forall|a: int, b: int| 0 <= a < b < v1.len() implies (#[trigger] v1[a]).0@ != (#[trigger] v1[b]).0@ by {
                if a != q && b != q {
                    assert(v0[a].0@ != v0[b].0@);
                } else if a == q {
                    assert(v0[b].0@ != kv);
                } else {
                    assert(v0[a].0@ != kv);
                }
            }
            lemma_lookup_at(v1, q);
            assert forall|w: Seq<char>| w != kv implies lookup(v1, w) == lookup(v0, w) by {
                if exists|j: int| 0 <= j < v0.len() && (#[trigger] v0[j]).0@ == w {
                    let j = choose|j: int| 0 <= j < v0.len() && (#[trigger] v0[j]).0@ == w;
                    lemma_lookup_at(v0, j);
                    assert(v1[j] == v0[j]);
                    lemma_lookup_at(v1, j);
                } else {
                    assert forall|j: int| 0 <= j < v1.len() implies (#[trigger] v1[j]).0@ != w by {
                        if j != q { assert(v1[j] == v0[j]); }
                    }
                }
            }
        }
    }

    /// Removes key `k`; returns its value, if it was stored. Other keys keep
    /// their values.
    pub fn remove(&mut self, k: &str) -> (r: Option<V>)
        requires
            old(self).wf(),
        ensures
            final(self).wf(),
            r == old(self).get_spec(k@),
            final(self).get_spec(k@) is None,
            forall|q: Seq<char>| q != k@ ==> final(self).get_spec(q) == old(self).get_spec(q),
    {
        let ghost v0 = self.entries@;
        match self.position(k) {
            Some(i) => {
                proof { lemma_lookup_at(v0, i as int); }
                let (_, v) = self.entries.remove(i);
                let ghost v1 = self.entries@;
                proof {
                    assert(v1 =~= v0.remove(i as int));
                    assert forall|a: int, b: int| 0 <= a < b < v1.len() implies (#[trigger] v1[a]).0@ != (#[trigger] v1[b]).0@ by {
                        let a0 = if a < i { a } else { a + 1 };
                        let b0 = if b < i { b } else { b + 1 };
                        assert(v1[a] == v0[a0] && v1[b] == v0[b0]);
                        assert(v0[a0].0@ != v0[b0].0@);
                    }
                    assert forall|j: int| 0 <= j < v1.len() implies (#[trigger] v1[j]).0@ != k@ by {
                        let j0 = if j < i { j } else { j + 1 };
                        assert(v1[j] == v0[j0]);
                        if j0 < i { assert(v0[j0].0@ != v0[i as int].0@); } else { assert(v0[i as int].0@ != v0[j0].0@); }
                    }
                    assert forall|w: Seq<char>| w != k@ implies lookup(v1, w) == lookup(v0, w) by {
                        if exists|j: int| 0 <= j < v0.len() && (#[trigger] v0[j]).0@ == w {
                            let j = choose|j: int| 0 <= j < v0.len() && (#[trigger] v0[j]).0@ == w;
                            lemma_lookup_at(v0, j);
                            let j1 = if j < i { j } else { j - 1 };
                            assert(v1[j1] == v0[j]);
                            lemma_lookup_at(v1, j1);
                        } else {
                            assert forall|j: int| 0 <= j < v1.len() implies (#[trigger] v1[j]).0@ != w by {
                                let j0 = if j < i { j } else { j + 1 };
                                assert(v1[j] == v0[j0]);
                            }
                        }
                    }
                }
                Some(v)
            },
            None => None,
        }
    }
}

} // verus!
