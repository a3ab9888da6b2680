use vstd::prelude::*;

use crate::errors::AFT37Error;
use crate::table::{lemma_lookup_absent, lemma_lookup_index, lookup, unique_keys};
use crate::types::{AttributesKey, Id, IdView, TableKey};

verus! {

/// Named text attributes of assets.
pub struct Metadata {
    attributes: Vec<(AttributesKey, String)>,
}

impl Metadata {
    /// The entries, as views, in storage order.
    pub closed spec fn items(&self) -> Seq<((IdView, Seq<char>), Seq<char>)> {
        self.attributes@.map_values(|e: (AttributesKey, String)| (e.0@, e.1@))
    }

    /// The value of attribute `key` of `id`, if set.
    pub open spec fn attribute(&self, id: IdView, key: Seq<char>) -> Option<Seq<char>> {
        lookup(self.items(), (id, key))
    }

    pub open spec fn wf(&self) -> bool {
        unique_keys(self.items())
    }

    /// No attributes.
    pub fn new() -> (r: Self)
        ensures
            r.wf(),
            forall|id: IdView, key: Seq<char>| #[trigger] r.attribute(id, key) is None,
    {
        let r = Metadata { attributes: Vec::new() };
        assert(r.items() =~= Seq::<((IdView, Seq<char>), Seq<char>)>::empty());
        r
    }

    fn find(&self, k: &AttributesKey) -> (r: Option<usize>)
        requires
            self.wf(),
        ensures
            match r {
                Some(i) => i < self.items().len() && self.items()[i as int].0 == k@,
                None => forall|i: int| 0 <= i < self.items().len() ==> self.items()[i].0 != k@,
            },
    {
        let mut i: usize = 0;
        while i < self.attributes.len()
            invariant
                0 <= i <= self.attributes@.len(),
                self.items().len() == self.attributes@.len(),
                forall|j: int| 0 <= j < i ==> self.items()[j].0 != k@,
            decreases self.attributes@.len() - i,
        {
            if self.attributes[i].0.same_key(k) {
                return Some(i);
            }
            i = i + 1;
        }
        None
    }

    /// The value of attribute `key` of `id`, if set.
    pub fn _get_attribute(&self, id: &Id, key: &String) -> (r: Option<String>)
        requires
            self.wf(),
        ensures
            match self.attribute(id@, key@) {
                Some(v) => r is Some && r->0@ == v,
                None => r is None,
            },
    {
        let k = AttributesKey { id: id.key_clone(), key: key.clone() };
        match self.find(&k) {
            Some(i) => {
                proof {
                    lemma_lookup_index(self.items(), i as int);
                }
                Some(self.attributes[i].1.clone())
            },
            None => {
                proof {
                    lemma_lookup_absent(self.items(), k@);
                }
                None
            },
        }
    }

    /// The value of attribute `key` of `id`, if set.
    pub fn get_attribute(&self, id: Id, key: String) -> (r: Option<String>)
        requires
            self.wf(),
        ensures
            match self.attribute(id@, key@) {
                Some(v) => r is Some && r->0@ == v,
                None => r is None,
            },
    {
        self._get_attribute(&id, &key)
    }

    /// Sets attribute `key` of `id` to `data`.
    pub fn _set_attribute(&mut self, id: &Id, key: &String, data: &String) -> (r: Result<(), AFT37Error>)
        requires
            old(self).wf(),
        ensures
            final(self).wf(),
            r is Ok,
            forall|i: IdView, k: Seq<char>| #[trigger]
                final(self).attribute(i, k) == if i == id@ && k == key@ {
                    Some(data@)
                } else {
                    old(self).attribute(i, k)
                },
    {
        let k = AttributesKey { id: id.key_clone(), key: key.clone() };
        let ghost kv = k@;
        let ghost s = self.items();
        match self.find(&k) {
            Some(i) => {
                self.attributes.set(i, (k, data.clone()));
                let ghost s2 = self.items();
                assert(s2 =~= s.update(i as int, (kv, data@)));
                assert forall|i2: IdView, k2: Seq<char>| #[trigger]
                    lookup(s2, (i2, k2)) == if i2 == id@ && k2 == key@ {
                        Some(data@)
                    } else {
                        lookup(s, (i2, k2))
                    } by {
                    lemma_lookup_absent(s, (i2, k2));
                    lemma_lookup_absent(s2, (i2, k2));
                    if (i2, k2) == kv {
                        lemma_lookup_index(s2, i as int);
                    } else if lookup(s, (i2, k2)) is Some {
                        let j = choose|j: int| 0 <= j < s.len() && s[j].0 == (i2, k2);
                        lemma_lookup_index(s, j);
                        lemma_lookup_index(s2, j);
                    }
                }
            },
            None => {
                proof {
                    lemma_lookup_absent(s, kv);
                }
                self.attributes.push((k, data.clone()));
                let ghost s2 = self.items();
                assert(s2 =~= s.push((kv, data@)));
                assert forall|i2: IdView, k2: Seq<char>| #[trigger]
                    lookup(s2, (i2, k2)) == if i2 == id@ && k2 == key@ {
                        Some(data@)
                    } else {
                        lookup(s, (i2, k2))
                    } by {
                    assert(s2.drop_last() =~= s);
                }
            },
        }
        Ok(())
    }
}

} // verus!
