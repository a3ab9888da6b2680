use vstd::prelude::*;

use crate::balances::{
    amount_in, amount_or_zero, existing_in, held_in, lemma_amount_write, lemma_existing_bound,
    lemma_held_bound, lemma_supply_write, lemma_total_after_write, or_zero, supply_in, total_held,
    BalanceItems, BalancesManager, SupplyItems,
};
use crate::errors::AFT37Error;
use crate::multi_mapping::{lemma_list_without_set, lemma_push_set, list_without};
use crate::table::Table;
use crate::types::{AccountId, Balance, BalancesKey, Id, IdView, SupplyKey, TableKey};

verus! {

/// Balance storage that keeps, under the `None` asset key, a counter of the
/// distinct assets held by each owner and in existence.
pub struct CountingBalances {
    balances: Table<BalancesKey, u128>,
    supply: Table<SupplyKey, u128>,
    lists: Ghost<spec_fn(Option<Seq<u8>>) -> Seq<IdView>>,
}

/// `f` with the list under `k` replaced by `l`.
pub open spec fn with_list(
    f: spec_fn(Option<Seq<u8>>) -> Seq<IdView>,
    k: Option<Seq<u8>>,
    l: Seq<IdView>,
) -> spec_fn(Option<Seq<u8>>) -> Seq<IdView> {
    |o: Option<Seq<u8>>| if o == k { l } else { f(o) }
}

/// Writing a counter entry `(owner, None)` changes no quantity.
proof fn lemma_counter_write(s: BalanceItems, t: BalanceItems, owner: Seq<u8>, v: u128)
    requires
        forall|k2: (Seq<u8>, Option<IdView>)| #[trigger]
            crate::table::lookup(t, k2) == if k2 == (owner, None::<IdView>) {
                Some(v)
            } else {
                crate::table::lookup(s, k2)
            },
    ensures
        forall|o: Seq<u8>, i: IdView| #[trigger] amount_in(t, o, i) == amount_in(s, o, i),
        forall|o: Seq<u8>| #[trigger] held_in(t, o) == held_in(s, o),
        forall|o: Seq<u8>| #[trigger]
            or_zero(t, (o, None::<IdView>)) == if o == owner {
                v as nat
            } else {
                or_zero(s, (o, None::<IdView>))
            },
{
    assert forall|o: Seq<u8>, i: IdView| #[trigger] amount_in(t, o, i) == amount_in(s, o, i) by {
        assert(crate::table::lookup(t, (o, Some(i))) == crate::table::lookup(s, (o, Some(i))));
    }
    assert forall|o: Seq<u8>| #[trigger] held_in(t, o) == held_in(s, o) by {
        assert(held_in(t, o) =~= held_in(s, o));
    }
    assert forall|o: Seq<u8>| #[trigger]
        or_zero(t, (o, None::<IdView>)) == if o == owner {
            v as nat
        } else {
            or_zero(s, (o, None::<IdView>))
        } by {
        assert(crate::table::lookup(t, (o, None::<IdView>)) == if (o, None::<IdView>) == (
            owner,
            None::<IdView>,
        ) {
            Some(v)
        } else {
            crate::table::lookup(s, (o, None::<IdView>))
        });
    }
}

impl BalancesManager for CountingBalances {
    closed spec fn wf(&self) -> bool {
        &&& self.balances.wf()
        &&& self.supply.wf()
        &&& forall|o: Seq<u8>| #[trigger]
            or_zero(self.balances.items(), (o, None::<IdView>)) == held_in(
                self.balances.items(),
                o,
            ).len()
        &&& or_zero(self.supply.items(), None::<IdView>) == existing_in(self.supply.items()).len()
        &&& forall|o: Seq<u8>| #[trigger] self.lists@(Some(o)).no_duplicates()
        &&& forall|o: Seq<u8>| #[trigger]
            self.lists@(Some(o)).to_set() == held_in(self.balances.items(), o)
        &&& self.lists@(None).no_duplicates()
        &&& self.lists@(None).to_set() == existing_in(self.supply.items())
    }

    closed spec fn balance_items(&self) -> BalanceItems {
        self.balances.items()
    }

    closed spec fn supply_items(&self) -> SupplyItems {
        self.supply.items()
    }

    closed spec fn aggregate(&self, owner: Option<Seq<u8>>) -> nat {
        match owner {
            Some(o) => or_zero(self.balances.items(), (o, None::<IdView>)),
            None => or_zero(self.supply.items(), None::<IdView>),
        }
    }

    closed spec fn listed(&self, owner: Option<Seq<u8>>) -> Seq<IdView> {
        self.lists@(owner)
    }

    proof fn lemma_aggregate(&self) {
        assert forall|o: Seq<u8>| #[trigger]
            self.aggregate(Some(o)) == self.listed(Some(o)).len() by {
            self.lists@(Some(o)).unique_seq_to_set();
        }
        self.lists@(None).unique_seq_to_set();
        assert forall|o: Option<Seq<u8>>| #[trigger] self.listed(o).no_duplicates() by {
            match o {
                Some(x) => {
                    assert(self.lists@(Some(x)).no_duplicates());
                },
                None => {},
            }
        }
        assert forall|o: Option<Seq<u8>>| #[trigger] self.aggregate(o) == self.listed(o).len() by {
            match o {
                Some(x) => {
                    assert(self.aggregate(Some(x)) == self.listed(Some(x)).len());
                },
                None => {},
            }
        }
    }

    fn duplicate(&self) -> (r: Self) {
        CountingBalances {
            balances: self.balances.duplicate(),
            supply: self.supply.duplicate(),
            lists: Ghost(self.lists@),
        }
    }

    fn new() -> (r: Self) {
        let r = CountingBalances {
            balances: Table::new(),
            supply: Table::new(),
            lists: Ghost(|o: Option<Seq<u8>>| Seq::<IdView>::empty()),
        };
        assert(Seq::<IdView>::empty().to_set() =~= Set::<IdView>::empty());
        assert forall|o: Seq<u8>| #[trigger]
            or_zero(r.balances.items(), (o, None::<IdView>)) == held_in(
                r.balances.items(),
                o,
            ).len() by {
            assert(r.balances.spec_get((o, None::<IdView>)) is None);
            assert(held_in(r.balances.items(), o) =~= Set::<IdView>::empty());
        }
        assert(r.supply.spec_get(None::<IdView>) is None);
        assert(existing_in(r.supply.items()) =~= Set::<IdView>::empty());
        assert forall|o: Seq<u8>| #[trigger]
            r.lists@(Some(o)).to_set() == held_in(r.balances.items(), o) by {
            assert forall|id: IdView| !held_in(r.balances.items(), o).contains(id) by {
                assert(r.balances.spec_get((o, Some(id))) is None);
            }
            assert(held_in(r.balances.items(), o) =~= Set::<IdView>::empty());
        }
        assert(r.lists@(None).to_set() =~= existing_in(r.supply.items()));
        assert forall|o: Seq<u8>, id: IdView| #[trigger] amount_in(r.balance_items(), o, id) == 0 by {
            assert(r.balances.spec_get((o, Some(id))) is None);
        }
        assert forall|id: IdView| #[trigger] supply_in(r.supply_items(), id) == 0 by {
            assert(r.supply.spec_get(Some(id)) is None);
        }
        r
    }

    fn _balance_of(&self, owner: &AccountId, id: &Option<Id>) -> (r: Balance) {
        let key = BalancesKey { owner: owner.key_clone(), id: crate::types::clone_opt_id(id) };
        amount_or_zero(&self.balances, &key)
    }

    fn _total_supply(&self, id: &Option<Id>) -> (r: Balance) {
        let key = SupplyKey { id: crate::types::clone_opt_id(id) };
        amount_or_zero(&self.supply, &key)
    }

    fn _increase_balance(&mut self, owner: &AccountId, id: &Id, amount: Balance, mint: bool) -> (r:
        Result<(), AFT37Error>) {
        if amount == 0 {
            return Ok(());
        }
        let ghost s0 = self.balances.items();
        let ghost u_start = self.supply.items();
        let ghost l0 = self.lists@;
        let count_key = BalancesKey { owner: owner.key_clone(), id: None };
        let key = BalancesKey { owner: owner.key_clone(), id: Some(id.key_clone()) };
        let before = amount_or_zero(&self.balances, &key);
        if before == 0 {
            let count = amount_or_zero(&self.balances, &count_key);
            proof {
                self.balances.lemma_len_bound();
                lemma_held_bound(s0, owner@);
            }
            let ghost sa = self.balances.items();
            self.balances.insert(count_key, count + 1);
            proof {
                lemma_counter_write(sa, self.balances.items(), owner@, (count + 1) as u128);
                lemma_total_after_write(sa, self.balances.items(), (owner@, None::<IdView>), (count
                    + 1) as u128);
            }
            self.lists = Ghost(with_list(l0, Some(owner@), l0(Some(owner@)).push(id@)));
        }
        let ghost s1 = self.balances.items();
        proof {
            assert(amount_in(s1, owner@, id@) == before);
        }
        self.balances.insert(key, before + amount);
        proof {
            let s2 = self.balances.items();
            lemma_amount_write(s1, s2, owner@, id@, (before + amount) as u128);
            lemma_total_after_write(s1, s2, (owner@, Some(id@)), (before + amount) as u128);
            lemma_held_bound(s0, owner@);
            if before == 0 {
                assert(!held_in(s0, owner@).contains(id@));
            } else {
                assert(held_in(s0, owner@).contains(id@));
                assert(held_in(s0, owner@).insert(id@) =~= held_in(s0, owner@));
            }
            assert forall|i: IdView| #[trigger]
                total_held(s2, i) == if i == id@ {
                    (total_held(s0, i) + amount) as nat
                } else {
                    total_held(s0, i)
                } by {
                assert(total_held(s1, i) == total_held(s0, i));
            }
        }
        if mint {
            let ghost u0 = self.supply.items();
            let skey = SupplyKey { id: Some(id.key_clone()) };
            let supply_before = amount_or_zero(&self.supply, &skey);
            self.supply.insert(skey, supply_before + amount);
            proof {
                lemma_supply_write(u0, self.supply.items(), Some(id@), (supply_before
                    + amount) as u128);
                lemma_existing_bound(u0);
                if supply_before != 0 {
                    assert(existing_in(u0).insert(id@) =~= existing_in(u0));
                }
            }
            if supply_before == 0 {
                let ghost u1 = self.supply.items();
                let ckey = SupplyKey { id: None };
                let distinct = amount_or_zero(&self.supply, &ckey);
                proof {
                    self.supply.lemma_len_bound();
                    lemma_existing_bound(u1);
                }
                self.supply.insert(ckey, distinct + 1);
                proof {
                    lemma_supply_write(u1, self.supply.items(), None, (distinct + 1) as u128);
                }
                let ghost lm = self.lists@;
                self.lists = Ghost(with_list(lm, None, l0(None).push(id@)));
            }
        }
        proof {
            let l1 = self.lists@;
            if before == 0 {
                assert(!l0(Some(owner@)).contains(id@)) by {
                    assert(!l0(Some(owner@)).to_set().contains(id@));
                }
                lemma_push_set(l0(Some(owner@)), id@);
            }
            if mint && supply_in(u_start, id@) == 0 {
                assert(!l0(None).contains(id@)) by {
                    assert(!l0(None).to_set().contains(id@));
                }
                lemma_push_set(l0(None), id@);
            }
            assert forall|o: Seq<u8>| #[trigger] l1(Some(o)).no_duplicates() && l1(Some(o)).to_set()
                == held_in(self.balances.items(), o) by {
                assert(l0(Some(o)).no_duplicates() && l0(Some(o)).to_set() == held_in(s0, o));
            }
        }
        Ok(())
    }

    #[verifier::rlimit(40)]
    fn _decrease_balance(&mut self, owner: &AccountId, id: &Id, amount: Balance, burn: bool) -> (r:
        Result<(), AFT37Error>) {
        if amount == 0 {
            return Ok(());
        }
        let ghost s0 = self.balances.items();
        let key = BalancesKey { owner: owner.key_clone(), id: Some(id.key_clone()) };
        let balance = amount_or_zero(&self.balances, &key);
        if balance < amount {
            return Err(AFT37Error::InsufficientBalance);
        }
        let skey = SupplyKey { id: Some(id.key_clone()) };
        if burn && amount_or_zero(&self.supply, &skey) < amount {
            return Err(AFT37Error::InsufficientBalance);
        }
        let ghost u_start = self.supply.items();
        let ghost l0 = self.lists@;
        let balance_after = balance - amount;
        self.balances.insert(key, balance_after);
        let ghost s1 = self.balances.items();
        proof {
            lemma_amount_write(s0, s1, owner@, id@, balance_after);
            lemma_total_after_write(s0, s1, (owner@, Some(id@)), balance_after);
            lemma_held_bound(s0, owner@);
            assert(held_in(s0, owner@).contains(id@));
            if balance_after > 0 {
                assert(held_in(s0, owner@).insert(id@) =~= held_in(s0, owner@));
            }
        }
        if balance_after == 0 {
            let count_key = BalancesKey { owner: owner.key_clone(), id: None };
            let count = amount_or_zero(&self.balances, &count_key);
            self.balances.insert(count_key, count - 1);
            proof {
                lemma_counter_write(s1, self.balances.items(), owner@, (count - 1) as u128);
                lemma_total_after_write(s1, self.balances.items(), (owner@, None::<IdView>), (count
                    - 1) as u128);
            }
            self.lists = Ghost(with_list(l0, Some(owner@), list_without(l0(Some(owner@)), id@)));
        }
        if burn {
            let ghost u0 = self.supply.items();
            let supply_after = amount_or_zero(&self.supply, &skey) - amount;
            self.supply.insert(skey, supply_after);
            proof {
                lemma_supply_write(u0, self.supply.items(), Some(id@), supply_after);
                lemma_existing_bound(u0);
                assert(existing_in(u0).contains(id@));
                if supply_after != 0 {
                    assert(existing_in(u0).insert(id@) =~= existing_in(u0));
                }
            }
            if supply_after == 0 {
                let ghost u1 = self.supply.items();
                let ckey = SupplyKey { id: None };
                let distinct = amount_or_zero(&self.supply, &ckey);
                self.supply.insert(ckey, distinct - 1);
                proof {
                    lemma_supply_write(u1, self.supply.items(), None, (distinct - 1) as u128);
                }
                let ghost lm = self.lists@;
                self.lists = Ghost(with_list(lm, None, list_without(l0(None), id@)));
            }
        }
        proof {
            let l1 = self.lists@;
            if balance_after == 0 {
                lemma_list_without_set(l0(Some(owner@)), id@);
            }
            if burn && supply_in(u_start, id@) == amount {
                lemma_list_without_set(l0(None), id@);
            }
            assert forall|o: Seq<u8>| #[trigger] l1(Some(o)).no_duplicates() && l1(Some(o)).to_set()
                == held_in(self.balances.items(), o) by {
                assert(l0(Some(o)).no_duplicates() && l0(Some(o)).to_set() == held_in(s0, o));
            }
        }
        Ok(())
    }
}

} // verus!
