use vstd::prelude::*;

use crate::errors::AFT37Error;
use crate::multi_mapping::list_without;
use crate::table::{lookup, unique_keys, Table};
use crate::types::{AccountId, Balance, Id, IdView, MAX_BALANCE};

verus! {

/// Balance entries as views: `((owner, asset or None), amount)`.
pub type BalanceItems = Seq<((Seq<u8>, Option<IdView>), u128)>;

/// Supply entries as views: `(asset or None, amount)`.
pub type SupplyItems = Seq<(Option<IdView>, u128)>;

/// Quantity of `id` held by `owner` (zero when there is no entry).
pub open spec fn amount_in(s: BalanceItems, owner: Seq<u8>, id: IdView) -> nat {
    match lookup(s, (owner, Some(id))) {
        Some(v) => v as nat,
        None => 0,
    }
}

/// Total supply of `id` (zero when there is no entry).
pub open spec fn supply_in(s: SupplyItems, id: IdView) -> nat {
    match lookup(s, Some(id)) {
        Some(v) => v as nat,
        None => 0,
    }
}

/// The assets that `owner` holds a nonzero quantity of.
pub open spec fn held_in(s: BalanceItems, owner: Seq<u8>) -> Set<IdView> {
    Set::new(|id: IdView| amount_in(s, owner, id) > 0)
}

/// The assets with nonzero total supply.
pub open spec fn existing_in(s: SupplyItems) -> Set<IdView> {
    Set::new(|id: IdView| supply_in(s, id) > 0)
}

/// What one entry contributes to the total held of `id`.
pub open spec fn share(k: (Seq<u8>, Option<IdView>), v: u128, id: IdView) -> nat {
    if k.1 == Some(id) {
        v as nat
    } else {
        0
    }
}

/// Sum, over all accounts, of the quantity of `id` they hold.
pub open spec fn total_held(s: BalanceItems, id: IdView) -> nat
    decreases s.len(),
{
    if s.len() == 0 {
        0
    } else {
        total_held(s.drop_last(), id) + share(s.last().0, s.last().1, id)
    }
}

/// The value stored under `k`, or zero.
pub open spec fn or_zero<KV>(s: Seq<(KV, u128)>, k: KV) -> nat {
    match lookup(s, k) {
        Some(v) => v as nat,
        None => 0,
    }
}

pub proof fn lemma_total_update(s: BalanceItems, i: int, e: ((Seq<u8>, Option<IdView>), u128), id: IdView)
    requires
        0 <= i < s.len(),
    ensures
        total_held(s.update(i, e), id) + share(s[i].0, s[i].1, id) == total_held(s, id) + share(
            e.0,
            e.1,
            id,
        ),
    decreases s.len(),
{
    let t = s.update(i, e);
    if i == s.len() - 1 {
        assert(t.drop_last() =~= s.drop_last());
    } else {
        assert(t.drop_last() =~= s.drop_last().update(i, e));
        lemma_total_update(s.drop_last(), i, e, id);
    }
}

/// How the totals change when one balance entry is written.
pub proof fn lemma_total_after_write(s: BalanceItems, t: BalanceItems, k: (Seq<u8>, Option<IdView>), v: u128)
    requires
        unique_keys(s),
        (exists|i: int| 0 <= i < s.len() && #[trigger] s[i].0 == k && t == s.update(i, (k, v)))
            || (lookup(s, k) is None && t == s.push((k, v))),
    ensures
        forall|id: IdView| #[trigger]
            total_held(t, id) + share(k, or_zero(s, k) as u128, id) == total_held(s, id) + share(
                k,
                v,
                id,
            ),
{
    if exists|i: int| 0 <= i < s.len() && #[trigger] s[i].0 == k && t == s.update(i, (k, v)) {
        let i = choose|i: int| 0 <= i < s.len() && #[trigger] s[i].0 == k && t == s.update(i, (k, v));
        crate::table::lemma_lookup_index(s, i);
        assert forall|id: IdView| #[trigger]
            total_held(t, id) + share(k, or_zero(s, k) as u128, id) == total_held(s, id) + share(
                k,
                v,
                id,
            ) by {
            lemma_total_update(s, i, (k, v), id);
        }
    } else {
        assert forall|id: IdView| #[trigger]
            total_held(t, id) + share(k, or_zero(s, k) as u128, id) == total_held(s, id) + share(
                k,
                v,
                id,
            ) by {
            assert(t.drop_last() =~= s);
        }
    }
}

/// The held set of an owner is finite and no larger than the entry list.
pub proof fn lemma_held_bound(s: BalanceItems, owner: Seq<u8>)
    ensures
        held_in(s, owner).finite(),
        held_in(s, owner).len() <= s.len(),
    decreases s.len(),
{
    if s.len() == 0 {
        assert(held_in(s, owner) =~= Set::<IdView>::empty());
    } else {
        let d = s.drop_last();
        lemma_held_bound(d, owner);
        let big = match s.last().0.1 {
            Some(x) => held_in(d, owner).insert(x),
            None => held_in(d, owner),
        };
        assert forall|id: IdView| held_in(s, owner).contains(id) implies big.contains(id) by {
            if s.last().0 != (owner, Some(id)) {
                assert(lookup(s, (owner, Some(id))) == lookup(d, (owner, Some(id))));
            }
        }
        vstd::set_lib::lemma_len_subset(held_in(s, owner), big);
    }
}

/// The set of assets in existence is finite and no larger than the entry list.
pub proof fn lemma_existing_bound(s: SupplyItems)
    ensures
        existing_in(s).finite(),
        existing_in(s).len() <= s.len(),
    decreases s.len(),
{
    if s.len() == 0 {
        assert(existing_in(s) =~= Set::<IdView>::empty());
    } else {
        let d = s.drop_last();
        lemma_existing_bound(d);
        let big = match s.last().0 {
            Some(x) => existing_in(d).insert(x),
            None => existing_in(d),
        };
        assert forall|id: IdView| existing_in(s).contains(id) implies big.contains(id) by {
            if s.last().0 != Some(id) {
                assert(lookup(s, Some(id)) == lookup(d, Some(id)));
            }
        }
        vstd::set_lib::lemma_len_subset(existing_in(s), big);
    }
}

/// Writing a quantity entry `(owner, Some(id))` changes that quantity only.
pub proof fn lemma_amount_write(s: BalanceItems, t: BalanceItems, owner: Seq<u8>, id: IdView, v: u128)
    requires
        forall|k2: (Seq<u8>, Option<IdView>)| #[trigger]
            crate::table::lookup(t, k2) == if k2 == (owner, Some(id)) {
                Some(v)
            } else {
                crate::table::lookup(s, k2)
            },
    ensures
        forall|o: Seq<u8>, i: IdView| #[trigger]
            amount_in(t, o, i) == if o == owner && i == id {
                v as nat
            } else {
                amount_in(s, o, i)
            },
        forall|o: Seq<u8>| o != owner ==> #[trigger] held_in(t, o) == held_in(s, o),
        v > 0 ==> held_in(t, owner) == held_in(s, owner).insert(id),
        v == 0 ==> held_in(t, owner) == held_in(s, owner).remove(id),
        forall|o: Seq<u8>| #[trigger] or_zero(t, (o, None::<IdView>)) == or_zero(s, (o, None::<IdView>)),
{
    assert forall|o: Seq<u8>, i: IdView| #[trigger]
        amount_in(t, o, i) == if o == owner && i == id {
            v as nat
        } else {
            amount_in(s, o, i)
        } by {
        assert(crate::table::lookup(t, (o, Some(i))) == if (o, Some(i)) == (owner, Some(id)) {
            Some(v)
        } else {
            crate::table::lookup(s, (o, Some(i)))
        });
    }
    assert forall|o: Seq<u8>| o != owner implies #[trigger] held_in(t, o) == held_in(s, o) by {
        assert(held_in(t, o) =~= held_in(s, o));
    }
    if v > 0 {
        assert(held_in(t, owner) =~= held_in(s, owner).insert(id));
    } else {
        assert(held_in(t, owner) =~= held_in(s, owner).remove(id));
    }
    assert forall|o: Seq<u8>| #[trigger]
        or_zero(t, (o, None::<IdView>)) == or_zero(s, (o, None::<IdView>)) by {
        assert(crate::table::lookup(t, (o, None::<IdView>)) == crate::table::lookup(
            s,
            (o, None::<IdView>),
        ));
    }
}

/// Writing a supply entry `Some(id)` changes that supply only.
pub proof fn lemma_supply_write(s: SupplyItems, t: SupplyItems, k: Option<IdView>, v: u128)
    requires
        forall|k2: Option<IdView>| #[trigger]
            crate::table::lookup(t, k2) == if k2 == k {
                Some(v)
            } else {
                crate::table::lookup(s, k2)
            },
    ensures
        forall|i: IdView| #[trigger]
            supply_in(t, i) == if k == Some(i) {
                v as nat
            } else {
                supply_in(s, i)
            },
        or_zero(t, None::<IdView>) == if k is None {
            v as nat
        } else {
            or_zero(s, None::<IdView>)
        },
        k is None ==> existing_in(t) == existing_in(s),
        k is Some && v > 0 ==> existing_in(t) == existing_in(s).insert(k->0),
        k is Some && v == 0 ==> existing_in(t) == existing_in(s).remove(k->0),
{
    assert forall|i: IdView| #[trigger]
        supply_in(t, i) == if k == Some(i) {
            v as nat
        } else {
            supply_in(s, i)
        } by {
        assert(crate::table::lookup(t, Some(i)) == if Some(i) == k {
            Some(v)
        } else {
            crate::table::lookup(s, Some(i))
        });
    }
    assert(crate::table::lookup(t, None::<IdView>) == if None::<IdView> == k {
        Some(v)
    } else {
        crate::table::lookup(s, None::<IdView>)
    });
    match k {
        Some(id) => {
            if v > 0 {
                assert(existing_in(t) =~= existing_in(s).insert(id));
            } else {
                assert(existing_in(t) =~= existing_in(s).remove(id));
            }
        },
        None => {
            assert(existing_in(t) =~= existing_in(s));
        },
    }
}

/// Reads the amount stored under `k`, or zero.
pub fn amount_or_zero<K: crate::types::TableKey>(t: &Table<K, u128>, k: &K) -> (r: u128)
    requires
        t.wf(),
    ensures
        r as nat == or_zero(t.items(), k@),
{
    match t.get(k) {
        Some(v) => v,
        None => 0,
    }
}

/// Quantity-per-(owner, asset) and supply-per-asset storage, with the
/// number of distinct assets held by each owner and in existence kept up to
/// date on every change. Implemented by a counting and an enumerating
/// backend.
pub trait BalancesManager: Sized {
    spec fn wf(&self) -> bool;

    /// Balance entries, as views.
    spec fn balance_items(&self) -> BalanceItems;

    /// Supply entries, as views.
    spec fn supply_items(&self) -> SupplyItems;

    /// The value at the aggregate key: the number of distinct assets held
    /// by `Some(owner)`, or in existence for `None`.
    spec fn aggregate(&self, owner: Option<Seq<u8>>) -> nat;

    /// The assets held by `Some(owner)`, or in existence for `None`, in
    /// enumeration order: an asset is appended when its quantity becomes
    /// nonzero, and removed, the last one taking its place, when it drops
    /// to zero.
    spec fn listed(&self, owner: Option<Seq<u8>>) -> Seq<IdView>;

    /// The aggregate values count exactly the assets with nonzero balance
    /// (or supply), which are those listed, once each.
    proof fn lemma_aggregate(&self)
        requires
            self.wf(),
        ensures
            forall|o: Seq<u8>| #[trigger]
                self.aggregate(Some(o)) == held_in(self.balance_items(), o).len(),
            self.aggregate(None) == existing_in(self.supply_items()).len(),
            forall|o: Seq<u8>| #[trigger]
                self.listed(Some(o)).to_set() == held_in(self.balance_items(), o),
            self.listed(None).to_set() == existing_in(self.supply_items()),
            forall|o: Option<Seq<u8>>| #[trigger] self.listed(o).no_duplicates(),
            forall|o: Option<Seq<u8>>| #[trigger] self.aggregate(o) == self.listed(o).len(),
    ;

    /// A copy with the same contents.
    fn duplicate(&self) -> (r: Self)
        requires
            self.wf(),
        ensures
            r.wf(),
            r.balance_items() == self.balance_items(),
            r.supply_items() == self.supply_items(),
            forall|o: Option<Seq<u8>>| #[trigger] r.aggregate(o) == self.aggregate(o),
            forall|o: Option<Seq<u8>>| #[trigger] r.listed(o) == self.listed(o),
    ;

    fn new() -> (r: Self)
        ensures
            r.wf(),
            forall|o: Seq<u8>, id: IdView| #[trigger] amount_in(r.balance_items(), o, id) == 0,
            forall|id: IdView| #[trigger] supply_in(r.supply_items(), id) == 0,
            forall|id: IdView| #[trigger] total_held(r.balance_items(), id) == 0,
            forall|o: Option<Seq<u8>>| #[trigger] r.listed(o) == Seq::<IdView>::empty(),
    ;

    /// The quantity of `id` held by `owner`, or with `None` the number of
    /// distinct assets it holds.
    fn _balance_of(&self, owner: &AccountId, id: &Option<Id>) -> (r: Balance)
        requires
            self.wf(),
        ensures
            r as nat == match id {
                Some(i) => amount_in(self.balance_items(), owner@, i@),
                None => self.aggregate(Some(owner@)),
            },
    ;

    /// The total supply of `id`, or with `None` the number of distinct
    /// assets in existence.
    fn _total_supply(&self, id: &Option<Id>) -> (r: Balance)
        requires
            self.wf(),
        ensures
            r as nat == match id {
                Some(i) => supply_in(self.supply_items(), i@),
                None => self.aggregate(None),
            },
    ;

    /// Adds `amount` of `id` to `owner`, and with `mint` to the supply too.
    fn _increase_balance(&mut self, owner: &AccountId, id: &Id, amount: Balance, mint: bool) -> (r:
        Result<(), AFT37Error>)
        requires
            old(self).wf(),
            amount_in(old(self).balance_items(), owner@, id@) + amount <= MAX_BALANCE,
            mint ==> supply_in(old(self).supply_items(), id@) + amount <= MAX_BALANCE,
        ensures
            final(self).wf(),
            r is Ok,
            amount == 0 ==> *final(self) == *old(self),
            forall|o: Option<Seq<u8>>| #[trigger]
                final(self).listed(o) == if amount > 0 && ((o == Some(owner@) && amount_in(
                    old(self).balance_items(),
                    owner@,
                    id@,
                ) == 0) || (o is None && mint && supply_in(old(self).supply_items(), id@) == 0)) {
                    old(self).listed(o).push(id@)
                } else {
                    old(self).listed(o)
                },
            forall|o: Seq<u8>, i: IdView| #[trigger]
                amount_in(final(self).balance_items(), o, i) == if o == owner@ && i == id@ {
                    (amount_in(old(self).balance_items(), o, i) + amount) as nat
                } else {
                    amount_in(old(self).balance_items(), o, i)
                },
            forall|i: IdView| #[trigger]
                supply_in(final(self).supply_items(), i) == if mint && i == id@ {
                    (supply_in(old(self).supply_items(), i) + amount) as nat
                } else {
                    supply_in(old(self).supply_items(), i)
                },
            forall|i: IdView| #[trigger]
                total_held(final(self).balance_items(), i) == if i == id@ {
                    (total_held(old(self).balance_items(), i) + amount) as nat
                } else {
                    total_held(old(self).balance_items(), i)
                },
    ;

    /// Takes `amount` of `id` from `owner`, and with `burn` from the supply
    /// too. Fails with `InsufficientBalance`, changing nothing, when the
    /// owner holds less than `amount`, or with `burn` the supply is less.
    fn _decrease_balance(&mut self, owner: &AccountId, id: &Id, amount: Balance, burn: bool) -> (r:
        Result<(), AFT37Error>)
        requires
            old(self).wf(),
        ensures
            final(self).wf(),
            (r is Err) == (amount > 0 && (amount_in(old(self).balance_items(), owner@, id@) < amount
                || (burn && supply_in(old(self).supply_items(), id@) < amount))),
            r is Err ==> r == Err::<(), AFT37Error>(AFT37Error::InsufficientBalance) && *final(self)
                == *old(self),
            amount == 0 ==> *final(self) == *old(self),
            r is Ok ==> forall|o: Option<Seq<u8>>| #[trigger]
                final(self).listed(o) == if amount > 0 && ((o == Some(owner@) && amount_in(
                    old(self).balance_items(),
                    owner@,
                    id@,
                ) == amount) || (o is None && burn && supply_in(old(self).supply_items(), id@)
                    == amount)) {
                    list_without(old(self).listed(o), id@)
                } else {
                    old(self).listed(o)
                },
            r is Ok ==> forall|o: Seq<u8>, i: IdView| #[trigger]
                amount_in(final(self).balance_items(), o, i) == if o == owner@ && i == id@ {
                    (amount_in(old(self).balance_items(), o, i) - amount) as nat
                } else {
                    amount_in(old(self).balance_items(), o, i)
                },
            r is Ok ==> forall|i: IdView| #[trigger]
                supply_in(final(self).supply_items(), i) == if burn && i == id@ {
                    (supply_in(old(self).supply_items(), i) - amount) as nat
                } else {
                    supply_in(old(self).supply_items(), i)
                },
            r is Ok ==> forall|i: IdView| #[trigger]
                total_held(final(self).balance_items(), i) == if i == id@ {
                    (total_held(old(self).balance_items(), i) - amount) as nat
                } else {
                    total_held(old(self).balance_items(), i)
                },
    ;
}

} // verus!
