use vstd::prelude::*;

use crate::balances::{
    amount_in, amount_or_zero, existing_in, held_in, lemma_amount_write, lemma_supply_write,
    lemma_total_after_write, supply_in, BalanceItems, BalancesManager, SupplyItems,
};
use crate::errors::AFT37Error;
use crate::multi_mapping::{lemma_list_without_set, lemma_push_set, MultiMapping};
use crate::table::Table;
use crate::types::{
    AccountId, Balance, BalancesKey, EnumerableKey, Id, IdView, SupplyKey, TableKey,
};

verus! {

/// Balance storage that lists, per owner and for all owners together, the
/// assets currently held, so that they can be enumerated by position.
pub struct EnumerableBalances {
    enumerable: MultiMapping<EnumerableKey, Id>,
    balances: Table<BalancesKey, u128>,
    supply: Table<SupplyKey, u128>,
}

impl EnumerableBalances {
    /// The asset at position `index` of the list of `owner` (all owners for
    /// `None`), or `None` past its end.
    pub fn asset_by_index(&self, owner: &Option<AccountId>, index: u128) -> (r: Option<Id>)
        requires
            self.wf(),
        ensures
            match r {
                Some(v) => index < self.listed(crate::types::opt_account(*owner)).len() && v@
                    == self.listed(crate::types::opt_account(*owner))[index as int],
                None => index >= self.listed(crate::types::opt_account(*owner)).len(),
            },
    {
        let key = match owner {
            Some(o) => EnumerableKey { owner: Some(o.key_clone()) },
            None => EnumerableKey { owner: None },
        };
        self.enumerable.get_value(&key, index)
    }

    /// Each list holds exactly the assets with nonzero balance (or supply),
    /// once each.
    pub proof fn lemma_listed(&self)
        requires
            self.wf(),
        ensures
            forall|o: Seq<u8>| #[trigger]
                self.listed(Some(o)).to_set() == held_in(self.balance_items(), o),
            self.listed(None).to_set() == existing_in(self.supply_items()),
            forall|o: Option<Seq<u8>>| #[trigger] self.listed(o).no_duplicates(),
    {
        assert forall|o: Option<Seq<u8>>| #[trigger] self.listed(o).no_duplicates() by {
            match o {
                Some(x) => {
                    assert(self.listed(Some(x)).no_duplicates());
                },
                None => {},
            }
        }
    }
}

impl BalancesManager for EnumerableBalances {
    closed spec fn wf(&self) -> bool {
        &&& self.enumerable.wf()
        &&& self.balances.wf()
        &&& self.supply.wf()
        &&& forall|o: Seq<u8>| #[trigger] self.enumerable.list(Some(o)).no_duplicates()
        &&& forall|o: Seq<u8>| #[trigger]
            self.enumerable.list(Some(o)).to_set() == held_in(self.balances.items(), o)
        &&& self.enumerable.list(None).no_duplicates()
        &&& self.enumerable.list(None).to_set() == existing_in(self.supply.items())
    }

    closed spec fn balance_items(&self) -> BalanceItems {
        self.balances.items()
    }

    closed spec fn supply_items(&self) -> SupplyItems {
        self.supply.items()
    }

    closed spec fn aggregate(&self, owner: Option<Seq<u8>>) -> nat {
        self.enumerable.list(owner).len()
    }

    closed spec fn listed(&self, owner: Option<Seq<u8>>) -> Seq<IdView> {
        self.enumerable.list(owner)
    }

    proof fn lemma_aggregate(&self) {
        assert forall|o: Seq<u8>| #[trigger]
            self.aggregate(Some(o)) == held_in(self.balance_items(), o).len() by {
            self.enumerable.list(Some(o)).unique_seq_to_set();
        }
        self.enumerable.list(None).unique_seq_to_set();
        assert forall|o: Option<Seq<u8>>| #[trigger] self.listed(o).no_duplicates() by {
            match o {
                Some(x) => {
                    assert(self.listed(Some(x)).no_duplicates());
                },
                None => {},
            }
        }
    }

    fn duplicate(&self) -> (r: Self) {
        EnumerableBalances {
            enumerable: self.enumerable.duplicate(),
            balances: self.balances.duplicate(),
            supply: self.supply.duplicate(),
        }
    }

    fn new() -> (r: Self) {
        let r = EnumerableBalances {
            enumerable: MultiMapping::new(),
            balances: Table::new(),
            supply: Table::new(),
        };
        assert forall|o: Seq<u8>| #[trigger]
            r.enumerable.list(Some(o)).to_set() == held_in(r.balances.items(), o) by {
            assert(r.enumerable.list(Some(o)) == Seq::<IdView>::empty());
            assert forall|id: IdView| !held_in(r.balances.items(), o).contains(id) by {
                assert(crate::table::lookup(r.balances.items(), (o, Some(id))) is None);
            }
            assert(r.enumerable.list(Some(o)).to_set() =~= held_in(r.balances.items(), o));
        }
        assert(r.enumerable.list(None) == Seq::<IdView>::empty());
        assert forall|id: IdView| !existing_in(r.supply.items()).contains(id) by {
            assert(crate::table::lookup(r.supply.items(), Some(id)) is None);
        }
        assert(r.enumerable.list(None).to_set() =~= existing_in(r.supply.items()));
        assert forall|o: Seq<u8>, id: IdView| #[trigger] amount_in(r.balance_items(), o, id) == 0 by {
            assert(crate::table::lookup(r.balances.items(), (o, Some(id))) is None);
        }
        assert forall|id: IdView| #[trigger] supply_in(r.supply_items(), id) == 0 by {
            assert(crate::table::lookup(r.supply.items(), Some(id)) is None);
        }
        r
    }

    fn _balance_of(&self, owner: &AccountId, id: &Option<Id>) -> (r: Balance) {
        match id {
            None => self.enumerable.count(&EnumerableKey { owner: Some(owner.key_clone()) }) as u128,
            Some(i) => {
                let key = BalancesKey { owner: owner.key_clone(), id: Some(i.key_clone()) };
                amount_or_zero(&self.balances, &key)
            },
        }
    }

    fn _total_supply(&self, id: &Option<Id>) -> (r: Balance) {
        match id {
            None => self.enumerable.count(&EnumerableKey { owner: None }) as u128,
            Some(i) => {
                let key = SupplyKey { id: Some(i.key_clone()) };
                amount_or_zero(&self.supply, &key)
            },
        }
    }

    fn _increase_balance(&mut self, owner: &AccountId, id: &Id, amount: Balance, mint: bool) -> (r:
        Result<(), AFT37Error>) {
        if amount == 0 {
            return Ok(());
        }
        let ghost s0 = self.balances.items();
        let key = BalancesKey { owner: owner.key_clone(), id: Some(id.key_clone()) };
        let before = amount_or_zero(&self.balances, &key);
        self.balances.insert(key, before + amount);
        proof {
            let s1 = self.balances.items();
            lemma_amount_write(s0, s1, owner@, id@, (before + amount) as u128);
            lemma_total_after_write(s0, s1, (owner@, Some(id@)), (before + amount) as u128);
            if before != 0 {
                assert(held_in(s0, owner@).insert(id@) =~= held_in(s0, owner@));
            }
        }
        if before == 0 {
            let ghost l0 = self.enumerable.list(Some(owner@));
            proof {
                assert(!l0.to_set().contains(id@));
                lemma_push_set(l0, id@);
            }
            self.enumerable.insert(&EnumerableKey { owner: Some(owner.key_clone()) }, id.key_clone());
        }
        if mint {
            let ghost u0 = self.supply.items();
            let skey = SupplyKey { id: Some(id.key_clone()) };
            let supply_before = amount_or_zero(&self.supply, &skey);
            self.supply.insert(skey, supply_before + amount);
            proof {
                lemma_supply_write(u0, self.supply.items(), Some(id@), (supply_before
                    + amount) as u128);
                if supply_before != 0 {
                    assert(existing_in(u0).insert(id@) =~= existing_in(u0));
                }
            }
            if supply_before == 0 {
                let ghost l0 = self.enumerable.list(None);
                proof {
                    assert(!l0.to_set().contains(id@));
                    lemma_push_set(l0, id@);
                }
                self.enumerable.insert(&EnumerableKey { owner: None }, id.key_clone());
            }
        }
        Ok(())
    }

    fn _decrease_balance(&mut self, owner: &AccountId, id: &Id, amount: Balance, burn: bool) -> (r:
        Result<(), AFT37Error>) {
        if amount == 0 {
            return Ok(());
        }
        let ghost s0 = self.balances.items();
        let key = BalancesKey { owner: owner.key_clone(), id: Some(id.key_clone()) };
        let balance = amount_or_zero(&self.balances, &key);
        if balance < amount {
            return Err(AFT37Error::InsufficientBalance);
        }
        let skey = SupplyKey { id: Some(id.key_clone()) };
        if burn && amount_or_zero(&self.supply, &skey) < amount {
            return Err(AFT37Error::InsufficientBalance);
        }
        let balance_after = balance - amount;
        self.balances.insert(key, balance_after);
        proof {
            let s1 = self.balances.items();
            lemma_amount_write(s0, s1, owner@, id@, balance_after);
            lemma_total_after_write(s0, s1, (owner@, Some(id@)), balance_after);
            assert(held_in(s0, owner@).contains(id@));
            if balance_after > 0 {
                assert(held_in(s0, owner@).insert(id@) =~= held_in(s0, owner@));
            }
        }
        if balance_after == 0 {
            proof {
                lemma_list_without_set(self.enumerable.list(Some(owner@)), id@);
            }
            self.enumerable.remove_value(&EnumerableKey { owner: Some(owner.key_clone()) }, id);
        }
        if burn {
            let ghost u0 = self.supply.items();
            let supply_after = amount_or_zero(&self.supply, &skey) - amount;
            self.supply.insert(skey, supply_after);
            proof {
                lemma_supply_write(u0, self.supply.items(), Some(id@), supply_after);
                assert(existing_in(u0).contains(id@));
                if supply_after != 0 {
                    assert(existing_in(u0).insert(id@) =~= existing_in(u0));
                }
            }
            if supply_after == 0 {
                proof {
                    lemma_list_without_set(self.enumerable.list(None), id@);
                }
                self.enumerable.remove_value(&EnumerableKey { owner: None }, id);
            }
        }
        Ok(())
    }
}

} // verus!
