use vstd::prelude::*;

use crate::types::TableKey;

verus! {

/// The list left after removing position `i`: the last element moves into
/// the freed slot.
pub open spec fn swap_removed<A>(s: Seq<A>, i: int) -> Seq<A> {
    s.update(i, s.last()).drop_last()
}

/// First position of `v` in `s`, if it occurs.
pub open spec fn position_of<A>(s: Seq<A>, v: A) -> Option<int> {
    if s.contains(v) {
        Some(choose|i: int| 0 <= i < s.len() && s[i] == v && forall|j: int| 0 <= j < i ==> s[j] != v)
    } else {
        None
    }
}

/// The list after removing `v`, when present, by swapping the last element
/// into its slot.
pub open spec fn list_without<A>(s: Seq<A>, v: A) -> Seq<A> {
    match position_of(s, v) {
        Some(i) => swap_removed(s, i),
        None => s,
    }
}

pub proof fn lemma_position_of<A>(s: Seq<A>, v: A, i: int)
    requires
        0 <= i < s.len(),
        s[i] == v,
        forall|j: int| 0 <= j < i ==> s[j] != v,
    ensures
        position_of(s, v) == Some(i),
{
    let p = choose|p: int| 0 <= p < s.len() && s[p] == v && forall|j: int| 0 <= j < p ==> s[j] != v;
    assert(s.contains(v));
    assert(0 <= p < s.len() && s[p] == v && forall|j: int| 0 <= j < p ==> s[j] != v);
    if p < i {
        assert(s[p] != v);
    }
    if i < p {
        assert(s[i] != v);
    }
}

/// Removing an element from a list without duplicates removes it from the
/// list's set, and leaves no duplicates.
pub proof fn lemma_list_without_set<A>(s: Seq<A>, v: A)
    requires
        s.no_duplicates(),
    ensures
        list_without(s, v).no_duplicates(),
        list_without(s, v).to_set() == s.to_set().remove(v),
        s.contains(v) ==> list_without(s, v).len() == s.len() - 1,
        !s.contains(v) ==> list_without(s, v) == s,
{
    if s.contains(v) {
        let i = choose|i: int| 0 <= i < s.len() && s[i] == v;
        lemma_position_of(s, v, i);
        let t = swap_removed(s, i);
        assert forall|a: int, b: int| 0 <= a < t.len() && 0 <= b < t.len() && a != b implies t[a]
            != t[b] by {
            let ia = if a == i { s.len() - 1 } else { a };
            let ib = if b == i { s.len() - 1 } else { b };
            assert(t[a] == s[ia]);
            assert(t[b] == s[ib]);
        }
        assert forall|x: A| t.to_set().contains(x) <==> s.to_set().remove(v).contains(x) by {
            if t.contains(x) {
                let a = choose|a: int| 0 <= a < t.len() && t[a] == x;
                let ia = if a == i { s.len() - 1 } else { a };
                assert(t[a] == s[ia]);
                assert(ia != i);
            }
            if s.contains(x) && x != v {
                let a = choose|a: int| 0 <= a < s.len() && s[a] == x;
                if a == s.len() - 1 {
                    assert(t[i] == x);
                } else {
                    assert(t[a] == x);
                }
            }
        }
        assert(t.to_set() =~= s.to_set().remove(v));
    }
}

/// Appending an element absent from a list without duplicates adds it to
/// the list's set.
pub proof fn lemma_push_set<A>(s: Seq<A>, v: A)
    requires
        s.no_duplicates(),
        !s.contains(v),
    ensures
        s.push(v).no_duplicates(),
        s.push(v).to_set() == s.to_set().insert(v),
{
    let t = s.push(v);
    assert forall|x: A| t.contains(x) <==> s.contains(x) || x == v by {
        if t.contains(x) {
            let a = choose|a: int| 0 <= a < t.len() && t[a] == x;
            if a < s.len() {
                assert(s[a] == x);
            }
        }
        if s.contains(x) {
            let a = choose|a: int| 0 <= a < s.len() && s[a] == x;
            assert(t[a] == x);
        }
        if x == v {
            assert(t[s.len() as int] == x);
        }
    }
    assert(t.to_set() =~= s.to_set().insert(v));
    assert forall|a: int, b: int| 0 <= a < t.len() && 0 <= b < t.len() && a != b implies t[a]
        != t[b] by {
        if a == s.len() {
            assert(s[b] == t[b]);
        } else if b == s.len() {
            assert(s[a] == t[a]);
        }
    }
}

fn position_in<V: TableKey>(l: &Vec<V>, v: &V) -> (r: Option<usize>)
    ensures
        match r {
            Some(p) => p < l@.len() && l@[p as int]@ == v@ && forall|j: int|
                0 <= j < p ==> l@[j]@ != v@,
            None => forall|j: int| 0 <= j < l@.len() ==> l@[j]@ != v@,
        },
{
    let mut p: usize = 0;
    while p < l.len()
        invariant
            0 <= p <= l@.len(),
            forall|j: int| 0 <= j < p ==> l@[j]@ != v@,
        decreases l@.len() - p,
    {
        if l[p].same_key(v) {
            return Some(p);
        }
        p = p + 1;
    }
    None
}

fn copy_list<V: TableKey>(l: &Vec<V>) -> (r: Vec<V>)
    ensures
        r@.map_values(|v: V| v@) == l@.map_values(|v: V| v@),
{
    let mut r: Vec<V> = Vec::new();
    let mut i: usize = 0;
    while i < l.len()
        invariant
            0 <= i <= l@.len(),
            r@.map_values(|v: V| v@) =~= l@.map_values(|v: V| v@).take(i as int),
        decreases l@.len() - i,
    {
        let ghost before = r@;
        r.push(l[i].key_clone());
        proof {
            assert(r@.map_values(|v: V| v@) =~= before.map_values(|v: V| v@).push(l@[i as int]@));
            assert(l@.map_values(|v: V| v@).take(i as int + 1) =~= l@.map_values(|v: V| v@).take(
                i as int,
            ).push(l@[i as int]@));
        }
        i = i + 1;
    }
    assert(r@.map_values(|v: V| v@) =~= l@.map_values(|v: V| v@));
    r
}

/// Lists of values kept under keys. A value is appended at the next free
/// position of its key; removing a value moves the key's last value into
/// the freed position, so positions are not stable across removals.
pub struct MultiMapping<K, V> {
    keys: Vec<K>,
    lists: Vec<Vec<V>>,
}

impl<K: TableKey, V: TableKey> MultiMapping<K, V> {
    /// The values under `k`, in position order.
    pub closed spec fn list(&self, k: K::V) -> Seq<V::V> {
        if exists|i: int| 0 <= i < self.keys@.len() && #[trigger] self.keys@[i]@ == k {
            let i = choose|i: int| 0 <= i < self.keys@.len() && #[trigger] self.keys@[i]@ == k;
            self.lists@[i]@.map_values(|v: V| v@)
        } else {
            Seq::empty()
        }
    }

    pub closed spec fn wf(&self) -> bool {
        &&& self.keys@.len() == self.lists@.len()
        &&& forall|i: int, j: int|
            0 <= i < self.keys@.len() && 0 <= j < self.keys@.len() && i != j ==> self.keys@[i]@
                != self.keys@[j]@
    }

    pub fn new() -> (r: Self)
        ensures
            r.wf(),
            forall|k: K::V| #[trigger] r.list(k) == Seq::<V::V>::empty(),
    {
        MultiMapping { keys: Vec::new(), lists: Vec::new() }
    }

    /// A copy with the same lists.
    pub fn duplicate(&self) -> (r: Self)
        requires
            self.wf(),
        ensures
            r.wf(),
            forall|k: K::V| #[trigger] r.list(k) == self.list(k),
    {
        let mut keys: Vec<K> = Vec::new();
        let mut lists: Vec<Vec<V>> = Vec::new();
        let mut i: usize = 0;
        while i < self.keys.len()
            invariant
                self.wf(),
                0 <= i <= self.keys@.len(),
                keys@.len() == i,
                lists@.len() == i,
                forall|j: int| 0 <= j < i ==> #[trigger] keys@[j]@ == self.keys@[j]@,
                forall|j: int|
                    #![trigger lists@[j]]
                    0 <= j < i ==> lists@[j]@.map_values(|v: V| v@) == self.lists@[j]@.map_values(
                        |v: V| v@,
                    ),
            decreases self.keys@.len() - i,
        {
            keys.push(self.keys[i].key_clone());
            lists.push(copy_list(&self.lists[i]));
            i = i + 1;
        }
        let r = MultiMapping { keys, lists };
        assert forall|k: K::V| #[trigger] r.list(k) == self.list(k) by {
            if exists|j: int| 0 <= j < self.keys@.len() && #[trigger] self.keys@[j]@ == k {
                let j = choose|j: int| 0 <= j < self.keys@.len() && #[trigger] self.keys@[j]@ == k;
                self.lemma_list_at(j);
                r.lemma_list_at(j);
            } else {
                assert(!exists|j: int| 0 <= j < r.keys@.len() && #[trigger] r.keys@[j]@ == k);
            }
        }
        r
    }

    proof fn lemma_list_at(&self, i: int)
        requires
            self.wf(),
            0 <= i < self.keys@.len(),
        ensures
            self.list(self.keys@[i]@) == self.lists@[i]@.map_values(|v: V| v@),
    {
        let k = self.keys@[i]@;
        assert(exists|j: int| 0 <= j < self.keys@.len() && #[trigger] self.keys@[j]@ == k);
    }

    fn find(&self, k: &K) -> (r: Option<usize>)
        requires
            self.wf(),
        ensures
            match r {
                Some(i) => i < self.keys@.len() && self.keys@[i as int]@ == k@,
                None => forall|i: int| 0 <= i < self.keys@.len() ==> self.keys@[i]@ != k@,
            },
    {
        let mut i: usize = 0;
        while i < self.keys.len()
            invariant
                0 <= i <= self.keys@.len(),
                forall|j: int| 0 <= j < i ==> self.keys@[j]@ != k@,
            decreases self.keys@.len() - i,
        {
            if self.keys[i].same_key(k) {
                return Some(i);
            }
            i = i + 1;
        }
        None
    }

    /// Number of values under `k`.
    pub fn count(&self, k: &K) -> (r: usize)
        requires
            self.wf(),
        ensures
            r == self.list(k@).len(),
    {
        match self.find(k) {
            Some(i) => {
                proof {
                    self.lemma_list_at(i as int);
                }
                self.lists[i].len()
            },
            None => 0,
        }
    }

    /// The value at position `index` under `k`, or `None` when `index` is
    /// not below the count.
    pub fn get_value(&self, k: &K, index: u128) -> (r: Option<V>)
        requires
            self.wf(),
        ensures
            match r {
                Some(v) => index < self.list(k@).len() && v@ == self.list(k@)[index as int],
                None => index >= self.list(k@).len(),
            },
    {
        match self.find(k) {
            Some(i) => {
                proof {
                    self.lemma_list_at(i as int);
                }
                if index < self.lists[i].len() as u128 {
                    Some(self.lists[i][index as usize].key_clone())
                } else {
                    None
                }
            },
            None => None,
        }
    }

    /// Appends `v` at the end of the list under `k`.
    pub fn insert(&mut self, k: &K, v: V)
        requires
            old(self).wf(),
        ensures
            final(self).wf(),
            forall|k2: K::V| #[trigger]
                final(self).list(k2) == if k2 == k@ {
                    old(self).list(k2).push(v@)
                } else {
                    old(self).list(k2)
                },
    {
        let ghost v_view = v@;
        match self.find(k) {
            Some(i) => {
                proof {
                    self.lemma_list_at(i as int);
                }
                let ghost before = self.lists@[i as int]@;
                self.lists[i].push(v);
                assert forall|k2: K::V| #[trigger]
                    self.list(k2) == if k2 == k@ {
                        old(self).list(k2).push(v_view)
                    } else {
                        old(self).list(k2)
                    } by {
                    if k2 == k@ {
                        self.lemma_list_at(i as int);
                        assert(self.lists@[i as int]@.map_values(|x: V| x@) =~= before.map_values(
                            |x: V| x@,
                        ).push(v_view));
                    } else if exists|j: int| 0 <= j < self.keys@.len() && #[trigger] self.keys@[j]@ == k2 {
                        let j = choose|j: int| 0 <= j < self.keys@.len() && #[trigger] self.keys@[j]@ == k2;
                        self.lemma_list_at(j);
                        old(self).lemma_list_at(j);
                    }
                }
            },
            None => {
                let mut l: Vec<V> = Vec::new();
                l.push(v);
                self.keys.push(k.key_clone());
                self.lists.push(l);
                assert(self.keys@ == old(self).keys@.push(self.keys@.last()));
                assert forall|j: int| 0 <= j < old(self).keys@.len() implies self.keys@[j] == old(
                    self,
                ).keys@[j] && self.lists@[j] == old(self).lists@[j] by {}
                let ghost n: int = self.keys@.len() - 1;
                assert forall|k2: K::V| #[trigger]
                    self.list(k2) == if k2 == k@ {
                        old(self).list(k2).push(v_view)
                    } else {
                        old(self).list(k2)
                    } by {
                    if k2 == k@ {
                        self.lemma_list_at(n);
                        assert(self.lists@[n]@.map_values(|x: V| x@) =~= seq![v_view]);
                        assert(old(self).list(k2) =~= Seq::<V::V>::empty());
                    } else if exists|j: int| 0 <= j < self.keys@.len() && #[trigger] self.keys@[j]@ == k2 {
                        let j = choose|j: int| 0 <= j < self.keys@.len() && #[trigger] self.keys@[j]@ == k2;
                        self.lemma_list_at(j);
                        old(self).lemma_list_at(j);
                    }
                }
            },
        }
    }

    /// Removes `v` from the list under `k`, if present: the list's last value
    /// takes its position.
    pub fn remove_value(&mut self, k: &K, v: &V)
        requires
            old(self).wf(),
        ensures
            final(self).wf(),
            forall|k2: K::V| #[trigger]
                final(self).list(k2) == if k2 == k@ {
                    list_without(old(self).list(k2), v@)
                } else {
                    old(self).list(k2)
                },
    {
        match self.find(k) {
            Some(i) => {
                proof {
                    self.lemma_list_at(i as int);
                }
                let ghost before = self.lists@[i as int]@.map_values(|x: V| x@);
                let pos = position_in(&self.lists[i], v);
                if let Some(p) = pos {
                    proof {
                        assert(before[p as int] == v@);
                        lemma_position_of(before, v@, p as int);
                    }
                    let _ = self.lists[i].swap_remove(p);
                    assert(self.lists@[i as int]@.map_values(|x: V| x@) =~= swap_removed(
                        before,
                        p as int,
                    ));
                } else {
                    assert(!before.contains(v@));
                }
                assert forall|k2: K::V| #[trigger]
                    self.list(k2) == if k2 == k@ {
                        list_without(old(self).list(k2), v@)
                    } else {
                        old(self).list(k2)
                    } by {
                    if k2 == k@ {
                        self.lemma_list_at(i as int);
                    } else if exists|j: int| 0 <= j < self.keys@.len() && #[trigger] self.keys@[j]@ == k2 {
                        let j = choose|j: int| 0 <= j < self.keys@.len() && #[trigger] self.keys@[j]@ == k2;
                        self.lemma_list_at(j);
                        old(self).lemma_list_at(j);
                    }
                }
            },
            None => {
                assert(self.list(k@) =~= Seq::<V::V>::empty());
            },
        }
    }
}

} // verus!
