use vstd::prelude::*;

use crate::types::{TableKey, TableValue};

verus! {

/// The value stored under `k` in a list of entries, searching from the end.
pub open spec fn lookup<KV, V>(s: Seq<(KV, V)>, k: KV) -> Option<V>
    decreases s.len(),
{
    if s.len() == 0 {
        None
    } else if s.last().0 == k {
        Some(s.last().1)
    } else {
        lookup(s.drop_last(), k)
    }
}

/// No key occurs twice in the list.
pub open spec fn unique_keys<KV, V>(s: Seq<(KV, V)>) -> bool {
    forall|i: int, j: int| 0 <= i < s.len() && 0 <= j < s.len() && i != j ==> s[i].0 != s[j].0
}

pub proof fn lemma_lookup_absent<KV, V>(s: Seq<(KV, V)>, k: KV)
    ensures
        (lookup(s, k) is None) <==> (forall|i: int| 0 <= i < s.len() ==> s[i].0 != k),
    decreases s.len(),
{
    if s.len() > 0 {
        lemma_lookup_absent(s.drop_last(), k);
        if lookup(s, k) is None {
            assert forall|i: int| 0 <= i < s.len() implies s[i].0 != k by {
                if i < s.len() - 1 {
                    assert(s.drop_last()[i] == s[i]);
                }
            }
        } else if s.last().0 != k {
            let i = choose|i: int| 0 <= i < s.drop_last().len() && s.drop_last()[i].0 == k;
            assert(s[i] == s.drop_last()[i]);
        }
    }
}

pub proof fn lemma_lookup_index<KV, V>(s: Seq<(KV, V)>, i: int)
    requires
        unique_keys(s),
        0 <= i < s.len(),
    ensures
        lookup(s, s[i].0) == Some(s[i].1),
    decreases s.len(),
{
    if i < s.len() - 1 {
        assert(s.last() == s[s.len() - 1]);
        assert(s.drop_last()[i] == s[i]);
        lemma_lookup_index(s.drop_last(), i);
    }
}

/// A keyed collection of entries with distinct keys, kept as a list.
pub struct Table<K, V> {
    entries: Vec<(K, V)>,
}

impl<K: TableKey, V: TableValue> Table<K, V> {
    /// The entries, as views, in storage order.
    pub closed spec fn items(&self) -> Seq<(K::V, V)> {
        self.entries@.map_values(|e: (K, V)| (e.0@, e.1))
    }

    pub open spec fn wf(&self) -> bool {
        unique_keys(self.items())
    }

    /// The value stored under `k`, if any.
    pub open spec fn spec_get(&self, k: K::V) -> Option<V> {
        lookup(self.items(), k)
    }

    pub fn new() -> (r: Self)
        ensures
            r.wf(),
            r.items().len() == 0,
            forall|k: K::V| #[trigger] lookup(r.items(), k) is None,
    {
        let r = Table { entries: Vec::new() };
        assert(r.items() =~= Seq::<(K::V, V)>::empty());
        r
    }

    /// The number of entries fits in a `usize`.
    pub proof fn lemma_len_bound(&self)
        ensures
            self.items().len() <= usize::MAX,
    {
        assert(self.entries.len() == self.entries@.len());
    }

    /// A copy with the same entries.
    pub fn duplicate(&self) -> (r: Self)
        ensures
            r.items() == self.items(),
    {
        let mut entries: Vec<(K, V)> = Vec::new();
        let mut i: usize = 0;
        while i < self.entries.len()
            invariant
                0 <= i <= self.entries@.len(),
                entries@.map_values(|e: (K, V)| (e.0@, e.1)) =~= self.items().take(i as int),
            decreases self.entries@.len() - i,
        {
            let ghost before = entries@;
            entries.push((self.entries[i].0.key_clone(), self.entries[i].1.copy_value()));
            proof {
                assert(self.items()[i as int] == (self.entries@[i as int].0@, self.entries@[i as int].1));
                assert(entries@ == before.push(entries@.last()));
                assert(entries@.map_values(|e: (K, V)| (e.0@, e.1)) =~= before.map_values(
                    |e: (K, V)| (e.0@, e.1),
                ).push(self.items()[i as int]));
                assert(self.items().take(i as int + 1) =~= self.items().take(i as int).push(
                    self.items()[i as int],
                ));
            }
            i = i + 1;
        }
        let r = Table { entries };
        assert(r.items() =~= self.items());
        r
    }

    fn find(&self, k: &K) -> (r: Option<usize>)
        requires
            self.wf(),
        ensures
            match r {
                Some(i) => i < self.items().len() && self.items()[i as int].0 == k@,
                None => forall|i: int| 0 <= i < self.items().len() ==> self.items()[i].0 != k@,
            },
    {
        let mut i: usize = 0;
        while i < self.entries.len()
            invariant
                0 <= i <= self.entries@.len(),
                self.items().len() == self.entries@.len(),
                forall|j: int| 0 <= j < i ==> self.items()[j].0 != k@,
            decreases self.entries@.len() - i,
        {
            if self.entries[i].0.same_key(k) {
                return Some(i);
            }
            i = i + 1;
        }
        None
    }

    pub fn get(&self, k: &K) -> (r: Option<V>)
        requires
            self.wf(),
        ensures
            r == self.spec_get(k@),
    {
        match self.find(k) {
            Some(i) => {
                proof {
                    lemma_lookup_index(self.items(), i as int);
                }
                Some(self.entries[i].1.copy_value())
            },
            None => {
                proof {
                    lemma_lookup_absent(self.items(), k@);
                }
                None
            },
        }
    }

    /// Stores `v` under `k`, overwriting an existing value in place or
    /// appending a new entry.
    pub fn insert(&mut self, k: K, v: V)
        requires
            old(self).wf(),
        ensures
            final(self).wf(),
            forall|k2: K::V| #[trigger]
                lookup(final(self).items(), k2) == if k2 == k@ {
                    Some(v)
                } else {
                    old(self).spec_get(k2)
                },
            (exists|i: int|
                0 <= i < old(self).items().len() && #[trigger] old(self).items()[i].0 == k@
                    && final(self).items() == old(self).items().update(i, (k@, v))) || (old(
                self,
            ).spec_get(k@) is None && final(self).items() == old(self).items().push((k@, v))),
    {
        let ghost s = self.items();
        match self.find(&k) {
            Some(i) => {
                let kk = k;
                self.entries.set(i, (kk, v));
                let ghost s2 = self.items();
                assert(s2 =~= s.update(i as int, (k@, v)));
                assert forall|k2: K::V| #[trigger] lookup(s2, k2) == if k2 == k@ {
                    Some(v)
                } else {
                    lookup(s, k2)
                } by {
                    lemma_lookup_absent(s, k2);
                    lemma_lookup_absent(s2, k2);
                    if k2 == k@ {
                        lemma_lookup_index(s2, i as int);
                    } else if lookup(s, k2) is Some {
                        let j = choose|j: int| 0 <= j < s.len() && s[j].0 == k2;
                        lemma_lookup_index(s, j);
                        lemma_lookup_index(s2, j);
                    }
                }
                assert(s[i as int].0 == k@);
            },
            None => {
                proof {
                    lemma_lookup_absent(s, k@);
                }
                self.entries.push((k, v));
                let ghost s2 = self.items();
                assert(s2 =~= s.push((k@, v)));
                assert forall|k2: K::V| #[trigger] lookup(s2, k2) == if k2 == k@ {
                    Some(v)
                } else {
                    lookup(s, k2)
                } by {
                    assert(s2.drop_last() =~= s);
                }
            },
        }
    }

    /// Deletes the entry under `k`, if any: the last entry takes its place.
    pub fn remove(&mut self, k: &K)
        requires
            old(self).wf(),
        ensures
            final(self).wf(),
            forall|k2: K::V| #[trigger]
                lookup(final(self).items(), k2) == if k2 == k@ {
                    None
                } else {
                    old(self).spec_get(k2)
                },
    {
        let ghost s = self.items();
        match self.find(k) {
            Some(i) => {
                let _ = self.entries.swap_remove(i);
                let ghost s2 = self.items();
                assert(s2 =~= s.update(i as int, s.last()).drop_last());
                assert forall|k2: K::V| #[trigger] lookup(s2, k2) == if k2 == k@ {
                    None
                } else {
                    lookup(s, k2)
                } by {
                    lemma_lookup_absent(s, k2);
                    lemma_lookup_absent(s2, k2);
                    if k2 == k@ {
                        assert forall|j: int| 0 <= j < s2.len() implies s2[j].0 != k2 by {
                            if j == i {
                                assert(s2[j] == s[s.len() - 1]);
                            } else {
                                assert(s2[j] == s[j]);
                            }
                        }
                    } else if lookup(s, k2) is Some {
                        let j = choose|j: int| 0 <= j < s.len() && s[j].0 == k2;
                        lemma_lookup_index(s, j);
                        if j == s.len() - 1 {
                            lemma_lookup_index(s2, i as int);
                        } else {
                            lemma_lookup_index(s2, j);
                        }
                    }
                }
            },
            None => {
                proof {
                    lemma_lookup_absent(s, k@);
                }
            },
        }
    }
}

} // verus!
