use vstd::prelude::*;

use crate::aft37::{listed_sum, AFT37};
use crate::balances::BalancesManager;
use crate::errors::AFT37Error;
use crate::hooks::{pairs_view, TransferHooks};
use crate::table::{lookup, Table};
use crate::types::{AccountId, Balance, Id, IdView, TableKey, MAX_BALANCE};

verus! {

/// What minting `amount` at `price` each must be paid: the product, or
/// nothing when the product does not fit in an amount.
pub open spec fn cost(amount: u128, price: nat) -> nat {
    if amount * price <= MAX_BALANCE {
        (amount * price) as nat
    } else {
        0
    }
}

/// Price per unit and largest supply of each asset, for sale by minting.
pub struct PayableMint {
    price_per_mint: Table<Id, u128>,
    max_supply: Table<Id, u32>,
}

impl PayableMint {
    /// The price of one unit of `id`, if set.
    pub closed spec fn price_of(&self, id: IdView) -> Option<u128> {
        lookup(self.price_per_mint.items(), id)
    }

    /// The largest supply of `id`, if set.
    pub closed spec fn max_supply_of(&self, id: IdView) -> Option<u32> {
        lookup(self.max_supply.items(), id)
    }

    /// The price of one unit of `id`, zero when unset.
    pub open spec fn unit_price(&self, id: IdView) -> nat {
        match self.price_of(id) {
            Some(p) => p as nat,
            None => 0,
        }
    }

    /// What minting the listed pairs costs: the sum of each pair's cost.
    pub open spec fn value_of(&self, s: Seq<(IdView, u128)>) -> nat
        decreases s.len(),
    {
        if s.len() == 0 {
            0
        } else {
            self.value_of(s.drop_last()) + cost(s.last().1, self.unit_price(s.last().0))
        }
    }

    proof fn lemma_value_mono(&self, s: Seq<(IdView, u128)>, k: int)
        requires
            0 <= k <= s.len(),
        ensures
            self.value_of(s.take(k)) <= self.value_of(s),
        decreases s.len() - k,
    {
        if k < s.len() {
            assert(s.take(k + 1).drop_last() =~= s.take(k));
            self.lemma_value_mono(s, k + 1);
        } else {
            assert(s.take(k) =~= s);
        }
    }

    pub closed spec fn wf(&self) -> bool {
        self.price_per_mint.wf() && self.max_supply.wf()
    }

    /// No prices and no supply limits.
    pub fn new() -> (r: Self)
        ensures
            r.wf(),
            forall|id: IdView| #[trigger] r.price_of(id) is None,
            forall|id: IdView| #[trigger] r.max_supply_of(id) is None,
    {
        PayableMint { price_per_mint: Table::new(), max_supply: Table::new() }
    }

    /// Sets the largest supply of `id`.
    pub fn set_max_supply(&mut self, id: Id, max_supply: u32) -> (r: Result<(), AFT37Error>)
        requires
            old(self).wf(),
        ensures
            final(self).wf(),
            r is Ok,
            forall|i: IdView| #[trigger]
                final(self).max_supply_of(i) == if i == id@ {
                    Some(max_supply)
                } else {
                    old(self).max_supply_of(i)
                },
            forall|i: IdView| #[trigger] final(self).price_of(i) == old(self).price_of(i),
    {
        self.max_supply.insert(id, max_supply);
        Ok(())
    }

    /// Sets the price of one unit of `id`.
    pub fn set_price(&mut self, id: Id, price: Balance) -> (r: Result<(), AFT37Error>)
        requires
            old(self).wf(),
        ensures
            final(self).wf(),
            r is Ok,
            forall|i: IdView| #[trigger]
                final(self).price_of(i) == if i == id@ {
                    Some(price)
                } else {
                    old(self).price_of(i)
                },
            forall|i: IdView| #[trigger] final(self).max_supply_of(i) == old(self).max_supply_of(i),
    {
        self.price_per_mint.insert(id, price);
        Ok(())
    }

    /// The price of one unit of `token_id`; `TokenNotExists` when unset.
    pub fn price(&self, token_id: &Id) -> (r: Result<Balance, AFT37Error>)
        requires
            self.wf(),
        ensures
            match self.price_of(token_id@) {
                Some(p) => r == Ok::<Balance, AFT37Error>(p),
                None => r == Err::<Balance, AFT37Error>(AFT37Error::TokenNotExists),
            },
    {
        match self.price_per_mint.get(token_id) {
            Some(p) => Ok(p),
            None => Err(AFT37Error::TokenNotExists),
        }
    }

    /// The largest supply of `id`; `TokenNotExists` when unset.
    pub fn max_supply(&self, id: &Id) -> (r: Result<u32, AFT37Error>)
        requires
            self.wf(),
        ensures
            match self.max_supply_of(id@) {
                Some(m) => r == Ok::<u32, AFT37Error>(m),
                None => r == Err::<u32, AFT37Error>(AFT37Error::TokenNotExists),
            },
    {
        match self.max_supply.get(id) {
            Some(m) => Ok(m),
            None => Err(AFT37Error::TokenNotExists),
        }
    }

    /// Checks that `transferred_value` is exactly what the listed pairs
    /// cost; otherwise the error is `Custom`.
    pub fn check_value(&self, transferred_value: u128, ids_amounts: &Vec<(Id, Balance)>) -> (r: Result<
        (),
        AFT37Error,
    >)
        requires
            self.wf(),
            self.value_of(pairs_view(ids_amounts@)) <= MAX_BALANCE,
        ensures
            (r is Ok) == (transferred_value == self.value_of(pairs_view(ids_amounts@))),
            r is Err ==> r->Err_0 is Custom,
    {
        let ghost s = pairs_view(ids_amounts@);
        let mut value: u128 = 0;
        let mut k: usize = 0;
        while k < ids_amounts.len()
            invariant
                0 <= k <= ids_amounts@.len(),
                self.wf(),
                s == pairs_view(ids_amounts@),
                self.value_of(s) <= MAX_BALANCE,
                value == self.value_of(s.take(k as int)),
            decreases ids_amounts@.len() - k,
        {
            let (id, amount) = (&ids_amounts[k].0, ids_amounts[k].1);
            proof {
                assert(s[k as int] == (id@, amount));
                assert(s.take(k as int + 1).drop_last() =~= s.take(k as int));
                self.lemma_value_mono(s, k as int + 1);
            }
            let price = match self.price_per_mint.get(id) {
                Some(p) => p,
                None => 0,
            };
            match amount.checked_mul(price) {
                Some(p) => {
                    value = value + p;
                },
                None => {},
            }
            k = k + 1;
        }
        proof {
            assert(s.take(k as int) =~= s);
        }
        if transferred_value == value {
            Ok(())
        } else {
            Err(AFT37Error::Custom("BadMintValue".to_owned()))
        }
    }

    /// Whether the pair `(id, amount)` may be minted on a supply of `supply`:
    /// a nonzero amount that keeps the supply within the set limit.
    pub open spec fn pair_fits(&self, supply: nat, id: IdView, amount: u128) -> bool {
        amount > 0 && self.max_supply_of(id) is Some && supply + amount <= self.max_supply_of(
            id,
        )->0
    }

    /// Checks each pair in order against the current supplies: a zero
    /// amount fails with `Custom`, an asset without a supply limit with
    /// `TokenNotExists`, and an amount that takes the supply past the limit
    /// with `Custom`. The first failing pair decides the error.
    pub fn check_amount<B: BalancesManager, H: TransferHooks>(
        &self,
        ledger: &AFT37<B, H>,
        ids_amounts: &Vec<(Id, Balance)>,
    ) -> (r: Result<(), AFT37Error>)
        requires
            self.wf(),
            ledger.wf(),
            forall|i: IdView| #[trigger]
                ledger.supply(i) + listed_sum(pairs_view(ids_amounts@), i) <= MAX_BALANCE,
        ensures
            (r is Ok) == (forall|k: int|
                0 <= k < ids_amounts@.len() ==> self.pair_fits(
                    ledger.supply(ids_amounts@[k].0@),
                    ids_amounts@[k].0@,
                    #[trigger] ids_amounts@[k].1,
                )),
            r is Err ==> exists|k: int|
                0 <= k < ids_amounts@.len() && (forall|j: int|
                    0 <= j < k ==> self.pair_fits(
                        ledger.supply(ids_amounts@[j].0@),
                        ids_amounts@[j].0@,
                        #[trigger] ids_amounts@[j].1,
                    )) && !self.pair_fits(
                    ledger.supply(ids_amounts@[k].0@),
                    ids_amounts@[k].0@,
                    ids_amounts@[k].1,
                ) && if ids_amounts@[k].1 == 0 {
                    r->Err_0 is Custom
                } else if self.max_supply_of(ids_amounts@[k].0@) is None {
                    r == Err::<(), AFT37Error>(AFT37Error::TokenNotExists)
                } else {
                    r->Err_0 is Custom
                },
    {
        let ghost s = pairs_view(ids_amounts@);
        let mut k: usize = 0;
        while k < ids_amounts.len()
            invariant
                0 <= k <= ids_amounts@.len(),
                self.wf(),
                ledger.wf(),
                s == pairs_view(ids_amounts@),
                forall|i: IdView| #[trigger] ledger.supply(i) + listed_sum(s, i) <= MAX_BALANCE,
                forall|j: int|
                    0 <= j < k ==> self.pair_fits(
                        ledger.supply(ids_amounts@[j].0@),
                        ids_amounts@[j].0@,
                        #[trigger] ids_amounts@[j].1,
                    ),
            decreases ids_amounts@.len() - k,
        {
            let (id, mint_amount) = (&ids_amounts[k].0, ids_amounts[k].1);
            if mint_amount == 0 {
                return Err(AFT37Error::Custom("CannotMintZeroTokens".to_owned()));
            }
            let token_supply = ledger.total_supply(&Some(id.key_clone()));
            proof {
                assert(s[k as int] == (id@, mint_amount));
                crate::aft37::lemma_listed_mono(s, k as int + 1, id@);
                crate::aft37::lemma_listed_prefix(s, k as int, id@);
                assert(listed_sum(s.take(k as int), id@) >= 0);
                assert(ledger.supply(id@) + listed_sum(s, id@) <= MAX_BALANCE);
            }
            let limit = match self.max_supply.get(id) {
                Some(m) => m,
                None => {
                    return Err(AFT37Error::TokenNotExists);
                },
            };
            if token_supply + mint_amount > limit as u128 {
                return Err(AFT37Error::Custom("CollectionIsFull".to_owned()));
            }
            k = k + 1;
        }
        Ok(())
    }

    /// Mints the listed pairs to `to` when `transferred_value` pays exactly
    /// their cost and each pair fits its supply limit; see `check_value`,
    /// `check_amount` and the ledger's `_mint_to` for the outcomes.
    pub fn mint<B: BalancesManager, H: TransferHooks>(
        &self,
        ledger: &mut AFT37<B, H>,
        transferred_value: u128,
        to: &AccountId,
        ids_amounts: Vec<(Id, Balance)>,
    ) -> (r: Result<(), AFT37Error>)
        requires
            self.wf(),
            old(ledger).wf(),
            self.value_of(pairs_view(ids_amounts@)) <= MAX_BALANCE,
            forall|i: IdView| #[trigger]
                old(ledger).supply(i) + listed_sum(pairs_view(ids_amounts@), i) <= MAX_BALANCE,
        ensures
            final(ledger).wf(),
            transferred_value != self.value_of(pairs_view(ids_amounts@)) ==> r is Err && *final(ledger)
                == *old(ledger),
            !(forall|k: int|
                0 <= k < ids_amounts@.len() ==> self.pair_fits(
                    old(ledger).supply(ids_amounts@[k].0@),
                    ids_amounts@[k].0@,
                    #[trigger] ids_amounts@[k].1,
                )) ==> r is Err && *final(ledger) == *old(ledger),
            transferred_value == self.value_of(pairs_view(ids_amounts@)) && (forall|k: int|
                0 <= k < ids_amounts@.len() ==> self.pair_fits(
                    old(ledger).supply(ids_amounts@[k].0@),
                    ids_amounts@[k].0@,
                    #[trigger] ids_amounts@[k].1,
                )) && ids_amounts@.len() > 0 && old(ledger).policy().verdict(false, None, Some(to@), pairs_view(ids_amounts@)) is Err ==> r == old(ledger).policy().verdict(false, None, Some(to@), pairs_view(ids_amounts@)) && *final(ledger) == *old(ledger),
            transferred_value == self.value_of(pairs_view(ids_amounts@)) && (forall|k: int|
                0 <= k < ids_amounts@.len() ==> self.pair_fits(
                    old(ledger).supply(ids_amounts@[k].0@),
                    ids_amounts@[k].0@,
                    #[trigger] ids_amounts@[k].1,
                )) && ids_amounts@.len() > 0 && old(ledger).policy().verdict(false, None, Some(to@), pairs_view(ids_amounts@)) is Ok && old(ledger).policy().verdict(true, None, Some(to@), pairs_view(ids_amounts@)) is Err ==> r == old(ledger).policy().verdict(true, None, Some(to@), pairs_view(ids_amounts@)) && *final(ledger) == *old(ledger),
            transferred_value == self.value_of(pairs_view(ids_amounts@)) && (forall|k: int|
                0 <= k < ids_amounts@.len() ==> self.pair_fits(
                    old(ledger).supply(ids_amounts@[k].0@),
                    ids_amounts@[k].0@,
                    #[trigger] ids_amounts@[k].1,
                )) && ids_amounts@.len() > 0 && old(ledger).policy().verdict(false, None, Some(to@), pairs_view(ids_amounts@)) is Ok && old(ledger).policy().verdict(true, None, Some(to@), pairs_view(ids_amounts@)) is Ok ==> {
                &&& r is Ok
                &&& forall|o: Seq<u8>, i: IdView| #[trigger]
                    final(ledger).bal(o, i) == old(ledger).bal(o, i) + if o == to@ {
                        listed_sum(pairs_view(ids_amounts@), i)
                    } else {
                        0
                    }
                &&& forall|i: IdView| #[trigger]
                    final(ledger).supply(i) == old(ledger).supply(i) + listed_sum(
                        pairs_view(ids_amounts@),
                        i,
                    )
            },
    {
        match self.check_value(transferred_value, &ids_amounts) {
            Ok(()) => {},
            Err(e) => {
                return Err(e);
            },
        }
        match self.check_amount(ledger, &ids_amounts) {
            Ok(()) => {},
            Err(e) => {
                return Err(e);
            },
        }
        ledger._mint_to(to, ids_amounts)
    }
}

} // verus!
