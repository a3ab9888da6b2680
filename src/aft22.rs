use vstd::prelude::*;

use crate::aft37::{lemma_amount_le_total, lemma_two_le_total};
use crate::balances::{amount_in, supply_in, total_held, BalancesManager};
use crate::table::{lookup, Table};
use crate::types::{AccountId, AllowancesKey, Balance, Id, IdView, TableKey, MAX_BALANCE};

verus! {

/// Errors of the single-asset token.
#[derive(Clone, Debug, PartialEq, Eq)]
pub enum AFT22Error {
    /// A restriction added by the embedding contract, with its reason.
    Custom(String),
    /// Not enough balance to fulfil the request.
    InsufficientBalance,
    /// Not enough allowance to fulfil the request.
    InsufficientAllowance,
    /// The recipient is the zero account.
    ZeroRecipientAddress,
    /// The sender is the zero account.
    ZeroSenderAddress,
    /// A receiving contract rejected a transfer, with its reason.
    SafeTransferCheckFailed(String),
}

/// The one asset the single-asset token keeps in its ledger.
pub open spec fn token_id() -> IdView {
    IdView::U8(0)
}

/// A single fungible asset kept in a balance backend `B` under one fixed
/// asset identifier, with spender allowances and an optional cap on the
/// total supply.
pub struct AFT22<B> {
    balances: B,
    allowances: Table<AllowancesKey, u128>,
    cap: Option<u128>,
}

impl<B: BalancesManager> AFT22<B> {
    /// Quantity held by `owner`.
    pub closed spec fn bal(&self, owner: Seq<u8>) -> nat {
        amount_in(self.balances.balance_items(), owner, token_id())
    }

    /// Total supply.
    pub closed spec fn supply(&self) -> nat {
        supply_in(self.balances.supply_items(), token_id())
    }

    /// How much `spender` may move of `owner`'s tokens.
    pub closed spec fn allowance_of(&self, owner: Seq<u8>, spender: Seq<u8>) -> nat {
        match lookup(self.allowances.items(), (owner, spender)) {
            Some(v) => v as nat,
            None => 0,
        }
    }

    /// The cap on the total supply, if one was set.
    pub closed spec fn cap_of(&self) -> Option<u128> {
        self.cap
    }

    pub closed spec fn wf(&self) -> bool {
        &&& self.balances.wf()
        &&& self.allowances.wf()
        &&& supply_in(self.balances.supply_items(), token_id()) == total_held(
            self.balances.balance_items(),
            token_id(),
        )
    }

    /// An empty token without a cap.
    pub fn new() -> (r: Self)
        ensures
            r.wf(),
            r.supply() == 0,
            r.cap_of() is None,
            forall|o: Seq<u8>| #[trigger] r.bal(o) == 0,
            forall|o: Seq<u8>, s: Seq<u8>| #[trigger] r.allowance_of(o, s) == 0,
    {
        let r = AFT22 { balances: B::new(), allowances: Table::new(), cap: None };
        assert forall|o: Seq<u8>, s: Seq<u8>| #[trigger] r.allowance_of(o, s) == 0 by {
            assert(lookup(r.allowances.items(), (o, s)) is None);
        }
        r
    }

    fn token() -> (r: Id)
        ensures
            r@ == token_id(),
    {
        Id::U8(0)
    }

    pub fn total_supply(&self) -> (r: Balance)
        requires
            self.wf(),
        ensures
            r == self.supply(),
    {
        self.balances._total_supply(&Some(Self::token()))
    }

    pub fn balance_of(&self, owner: &AccountId) -> (r: Balance)
        requires
            self.wf(),
        ensures
            r == self.bal(owner@),
    {
        self.balances._balance_of(owner, &Some(Self::token()))
    }

    pub fn allowance(&self, owner: &AccountId, spender: &AccountId) -> (r: Balance)
        requires
            self.wf(),
        ensures
            r == self.allowance_of(owner@, spender@),
    {
        let key = AllowancesKey { owner: owner.key_clone(), spender: spender.key_clone() };
        match self.allowances.get(&key) {
            Some(v) => v,
            None => 0,
        }
    }

    /// Sets the allowance of `spender` over `owner`'s tokens to `amount`.
    pub fn _approve_from_to(&mut self, owner: &AccountId, spender: &AccountId, amount: Balance) -> (r:
        Result<(), AFT22Error>)
        requires
            old(self).wf(),
        ensures
            final(self).wf(),
            r is Ok,
            forall|o: Seq<u8>| #[trigger] final(self).bal(o) == old(self).bal(o),
            final(self).supply() == old(self).supply(),
            final(self).cap_of() == old(self).cap_of(),
            forall|o: Seq<u8>, s: Seq<u8>| #[trigger]
                final(self).allowance_of(o, s) == if o == owner@ && s == spender@ {
                    amount as nat
                } else {
                    old(self).allowance_of(o, s)
                },
    {
        let key = AllowancesKey { owner: owner.key_clone(), spender: spender.key_clone() };
        self.allowances.insert(key, amount);
        assert forall|o: Seq<u8>, s: Seq<u8>| #[trigger]
            self.allowance_of(o, s) == if o == owner@ && s == spender@ {
                amount as nat
            } else {
                old(self).allowance_of(o, s)
            } by {
            assert(lookup(self.allowances.items(), (o, s)) == if (o, s) == (owner@, spender@) {
                Some(amount)
            } else {
                lookup(old(self).allowances.items(), (o, s))
            });
        }
        Ok(())
    }

    /// Moves `amount` from `from` to `to`; fails with `InsufficientBalance`,
    /// changing nothing, when `from` holds less.
    pub fn _transfer_from_to(&mut self, from: &AccountId, to: &AccountId, amount: Balance) -> (r:
        Result<(), AFT22Error>)
        requires
            old(self).wf(),
        ensures
            final(self).wf(),
            (r is Err) == (old(self).bal(from@) < amount),
            r is Err ==> r == Err::<(), AFT22Error>(AFT22Error::InsufficientBalance) && *final(self)
                == *old(self),
            r is Ok ==> forall|o: Seq<u8>| #[trigger]
                final(self).bal(o) == old(self).bal(o) - (if o == from@ {
                    amount as nat
                } else {
                    0
                }) + (if o == to@ {
                    amount as nat
                } else {
                    0
                }),
            final(self).supply() == old(self).supply(),
            final(self).cap_of() == old(self).cap_of(),
            forall|o: Seq<u8>, s: Seq<u8>| #[trigger]
                final(self).allowance_of(o, s) == old(self).allowance_of(o, s),
    {
        let id = Self::token();
        let from_balance = self.balances._balance_of(from, &Some(id.key_clone()));
        if from_balance < amount {
            return Err(AFT22Error::InsufficientBalance);
        }
        let ghost s0 = self.balances.balance_items();
        proof {
            lemma_amount_le_total(s0, from@, token_id());
            if from@ != to@ {
                lemma_two_le_total(s0, from@, to@, token_id());
            }
            assert(supply_in(self.balances.supply_items(), token_id()) <= MAX_BALANCE);
        }
        let _ = self.balances._decrease_balance(from, &id, amount, false);
        let _ = self.balances._increase_balance(to, &id, amount, false);
        Ok(())
    }

    /// Moves `value` from `caller` to `to`.
    pub fn transfer(&mut self, caller: &AccountId, to: &AccountId, value: Balance) -> (r: Result<
        (),
        AFT22Error,
    >)
        requires
            old(self).wf(),
        ensures
            final(self).wf(),
            (r is Err) == (old(self).bal(caller@) < value),
            r is Err ==> r == Err::<(), AFT22Error>(AFT22Error::InsufficientBalance) && *final(self)
                == *old(self),
            r is Ok ==> forall|o: Seq<u8>| #[trigger]
                final(self).bal(o) == old(self).bal(o) - (if o == caller@ {
                    value as nat
                } else {
                    0
                }) + (if o == to@ {
                    value as nat
                } else {
                    0
                }),
            final(self).supply() == old(self).supply(),
            forall|o: Seq<u8>, s: Seq<u8>| #[trigger]
                final(self).allowance_of(o, s) == old(self).allowance_of(o, s),
    {
        self._transfer_from_to(caller, to, value)
    }

    /// `caller` moves `value` of `from`'s tokens to `to`, spending its
    /// allowance. Fails with `InsufficientAllowance` when the allowance is
    /// below `value`, then with `InsufficientBalance` when `from` holds
    /// less; in both cases nothing changes.
    pub fn transfer_from(&mut self, caller: &AccountId, from: &AccountId, to: &AccountId, value: Balance) -> (r:
        Result<(), AFT22Error>)
        requires
            old(self).wf(),
        ensures
            final(self).wf(),
            old(self).allowance_of(from@, caller@) < value ==> r == Err::<(), AFT22Error>(
                AFT22Error::InsufficientAllowance,
            ) && *final(self) == *old(self),
            old(self).allowance_of(from@, caller@) >= value && old(self).bal(from@) < value ==> r
                == Err::<(), AFT22Error>(AFT22Error::InsufficientBalance) && *final(self) == *old(self),
            old(self).allowance_of(from@, caller@) >= value && old(self).bal(from@) >= value ==> {
                &&& r is Ok
                &&& forall|o: Seq<u8>| #[trigger]
                    final(self).bal(o) == old(self).bal(o) - (if o == from@ {
                        value as nat
                    } else {
                        0
                    }) + (if o == to@ {
                        value as nat
                    } else {
                        0
                    })
                &&& final(self).supply() == old(self).supply()
                &&& forall|o: Seq<u8>, s: Seq<u8>| #[trigger]
                    final(self).allowance_of(o, s) == if o == from@ && s == caller@ {
                        (old(self).allowance_of(o, s) - value) as nat
                    } else {
                        old(self).allowance_of(o, s)
                    }
            },
    {
        let allowance = self.allowance(from, caller);
        if allowance < value {
            return Err(AFT22Error::InsufficientAllowance);
        }
        if self.balance_of(from) < value {
            return Err(AFT22Error::InsufficientBalance);
        }
        let _ = self._approve_from_to(from, caller, allowance - value);
        self._transfer_from_to(from, to, value)
    }

    /// Raises the allowance of `spender` over `caller`'s tokens by `delta`.
    pub fn increase_allowance(&mut self, caller: &AccountId, spender: &AccountId, delta: Balance) -> (r:
        Result<(), AFT22Error>)
        requires
            old(self).wf(),
            old(self).allowance_of(caller@, spender@) + delta <= MAX_BALANCE,
        ensures
            final(self).wf(),
            r is Ok,
            forall|o: Seq<u8>| #[trigger] final(self).bal(o) == old(self).bal(o),
            final(self).supply() == old(self).supply(),
            forall|o: Seq<u8>, s: Seq<u8>| #[trigger]
                final(self).allowance_of(o, s) == if o == caller@ && s == spender@ {
                    old(self).allowance_of(o, s) + delta
                } else {
                    old(self).allowance_of(o, s) as int
                },
    {
        let current = self.allowance(caller, spender);
        self._approve_from_to(caller, spender, current + delta)
    }

    /// Lowers the allowance of `spender` over `caller`'s tokens by `delta`;
    /// fails with `InsufficientAllowance`, changing nothing, when it is
    /// below `delta`.
    pub fn decrease_allowance(&mut self, caller: &AccountId, spender: &AccountId, delta: Balance) -> (r:
        Result<(), AFT22Error>)
        requires
            old(self).wf(),
        ensures
            final(self).wf(),
            (r is Err) == (old(self).allowance_of(caller@, spender@) < delta),
            r is Err ==> r == Err::<(), AFT22Error>(AFT22Error::InsufficientAllowance) && *final(self) == *old(self),
            forall|o: Seq<u8>| #[trigger] final(self).bal(o) == old(self).bal(o),
            final(self).supply() == old(self).supply(),
            r is Ok ==> forall|o: Seq<u8>, s: Seq<u8>| #[trigger]
                final(self).allowance_of(o, s) == if o == caller@ && s == spender@ {
                    old(self).allowance_of(o, s) - delta
                } else {
                    old(self).allowance_of(o, s) as int
                },
    {
        let current = self.allowance(caller, spender);
        if current < delta {
            return Err(AFT22Error::InsufficientAllowance);
        }
        self._approve_from_to(caller, spender, current - delta)
    }

    /// Whether minting `amount` more would take the supply past the cap.
    pub fn _is_cap_exceeded(&self, amount: Balance) -> (r: bool)
        requires
            self.wf(),
        ensures
            r == match self.cap_of() {
                Some(c) => self.supply() + amount > c,
                None => false,
            },
    {
        match self.cap {
            Some(c) => {
                let supply = self.total_supply();
                supply > c || amount > c - supply
            },
            None => false,
        }
    }

    /// The cap on the total supply, zero when none was set.
    pub fn cap(&self) -> (r: Balance)
        ensures
            r == match self.cap_of() {
                Some(c) => c,
                None => 0,
            },
    {
        match self.cap {
            Some(c) => c,
            None => 0,
        }
    }

    /// Sets the cap on the total supply; a zero cap is refused.
    pub fn _init_cap(&mut self, cap: Balance) -> (r: Result<(), AFT22Error>)
        requires
            old(self).wf(),
        ensures
            final(self).wf(),
            (r is Err) == (cap == 0),
            r is Err ==> r->Err_0 is Custom && *final(self) == *old(self),
            r is Ok ==> final(self).cap_of() == Some(cap),
            forall|o: Seq<u8>| #[trigger] final(self).bal(o) == old(self).bal(o),
            final(self).supply() == old(self).supply(),
            forall|o: Seq<u8>, s: Seq<u8>| #[trigger]
                final(self).allowance_of(o, s) == old(self).allowance_of(o, s),
    {
        if cap == 0 {
            return Err(AFT22Error::Custom("Cap must be above 0".to_owned()));
        }
        self.cap = Some(cap);
        Ok(())
    }

    /// Creates `amount` tokens for `account`. Fails, changing nothing, when
    /// a cap is set and the new supply would exceed it.
    pub fn _mint_to(&mut self, account: &AccountId, amount: Balance) -> (r: Result<(), AFT22Error>)
        requires
            old(self).wf(),
            old(self).supply() + amount <= MAX_BALANCE,
        ensures
            final(self).wf(),
            (r is Err) == (old(self).cap_of() matches Some(c) && old(self).supply() + amount > c),
            r is Err ==> r->Err_0 is Custom && *final(self) == *old(self),
            r is Ok ==> forall|o: Seq<u8>| #[trigger]
                final(self).bal(o) == old(self).bal(o) + if o == account@ {
                    amount as nat
                } else {
                    0
                },
            r is Ok ==> final(self).supply() == old(self).supply() + amount,
            forall|o: Seq<u8>, s: Seq<u8>| #[trigger]
                final(self).allowance_of(o, s) == old(self).allowance_of(o, s),
    {
        if self._is_cap_exceeded(amount) {
            return Err(AFT22Error::Custom("Cap exceeded".to_owned()));
        }
        proof {
            lemma_amount_le_total(self.balances.balance_items(), account@, token_id());
        }
        let _ = self.balances._increase_balance(account, &Self::token(), amount, true);
        Ok(())
    }

    /// Destroys `amount` of `account`'s tokens; fails with
    /// `InsufficientBalance`, changing nothing, when it holds less.
    pub fn _burn_from(&mut self, account: &AccountId, amount: Balance) -> (r: Result<(), AFT22Error>)
        requires
            old(self).wf(),
        ensures
            final(self).wf(),
            (r is Err) == (old(self).bal(account@) < amount),
            r is Err ==> r == Err::<(), AFT22Error>(AFT22Error::InsufficientBalance) && *final(self)
                == *old(self),
            r is Ok ==> forall|o: Seq<u8>| #[trigger]
                final(self).bal(o) == old(self).bal(o) - if o == account@ {
                    amount as nat
                } else {
                    0
                },
            r is Ok ==> final(self).supply() == old(self).supply() - amount,
            forall|o: Seq<u8>, s: Seq<u8>| #[trigger]
                final(self).allowance_of(o, s) == old(self).allowance_of(o, s),
    {
        if self.balance_of(account) < amount {
            return Err(AFT22Error::InsufficientBalance);
        }
        proof {
            lemma_amount_le_total(self.balances.balance_items(), account@, token_id());
        }
        let _ = self.balances._decrease_balance(account, &Self::token(), amount, true);
        Ok(())
    }
}

} // verus!
