use vstd::prelude::*;

use crate::aft22::{AFT22Error, AFT22};
use crate::balances::BalancesManager;
use crate::types::{AccountId, Balance};

verus! {

/// The token wrapped one for one by a single-asset token.
pub struct AFT22Wrapper {
    underlying: Option<AccountId>,
}

impl AFT22Wrapper {
    /// The wrapped token's contract, if set.
    pub closed spec fn underlying_of(&self) -> Option<AccountId> {
        self.underlying
    }

    /// A wrapper with no underlying token yet.
    pub fn new() -> (r: Self)
        ensures
            r.underlying_of() is None,
    {
        AFT22Wrapper { underlying: None }
    }

    /// Sets the wrapped token.
    pub fn _init(&mut self, underlying: AccountId)
        ensures
            final(self).underlying_of() == Some(underlying),
    {
        self.underlying = Some(underlying);
    }

    /// The wrapped token, if set.
    pub fn _underlying(&self) -> (r: Option<AccountId>)
        ensures
            r == self.underlying_of(),
    {
        self.underlying
    }

    /// The wrapped token to move underlying tokens on; `Custom` when it was
    /// never set.
    pub fn underlying_for_transfer(&self) -> (r: Result<AccountId, AFT22Error>)
        ensures
            match self.underlying_of() {
                Some(u) => r == Ok::<AccountId, AFT22Error>(u),
                None => r is Err && r->Err_0 is Custom,
            },
    {
        match self.underlying {
            Some(u) => Ok(u),
            None => Err(AFT22Error::Custom("Underlying not initialized".to_owned())),
        }
    }

    /// Mints `amount` wrapped tokens to `account` once `deposit`, the result
    /// of moving `amount` underlying tokens to the wrapper, succeeded; its
    /// error otherwise, with no change.
    pub fn deposit_for<B: BalancesManager>(
        &self,
        token: &mut AFT22<B>,
        account: &AccountId,
        amount: Balance,
        deposit: Result<(), AFT22Error>,
    ) -> (r: Result<(), AFT22Error>)
        requires
            old(token).wf(),
            old(token).supply() + amount <= u128::MAX,
        ensures
            final(token).wf(),
            deposit is Err ==> r == deposit && *final(token) == *old(token),
            deposit is Ok && (old(token).cap_of() matches Some(c) && old(token).supply() + amount
                > c) ==> r is Err && *final(token) == *old(token),
            deposit is Ok && !(old(token).cap_of() matches Some(c) && old(token).supply() + amount
                > c) ==> r is Ok && final(token).supply() == old(token).supply() + amount
                && final(token).bal(account@) == old(token).bal(account@) + amount,
    {
        match deposit {
            Ok(()) => token._mint_to(account, amount),
            Err(e) => Err(e),
        }
    }

    /// Mints to `account` the wrapped tokens that the wrapper's
    /// `underlying_balance` holds beyond the supply (tokens sent to it
    /// without a deposit), and returns how many.
    pub fn _recover<B: BalancesManager>(
        &self,
        token: &mut AFT22<B>,
        account: &AccountId,
        underlying_balance: Balance,
    ) -> (r: Result<Balance, AFT22Error>)
        requires
            old(token).wf(),
            old(token).supply() <= underlying_balance,
        ensures
            final(token).wf(),
            (old(token).cap_of() matches Some(c) && underlying_balance > c) ==> r is Err && *final(token) == *old(token),
            !(old(token).cap_of() matches Some(c) && underlying_balance > c) ==> r == Ok::<
                Balance,
                AFT22Error,
            >((underlying_balance - old(token).supply()) as u128) && final(token).supply()
                == underlying_balance && final(token).bal(account@) == old(token).bal(account@)
                + underlying_balance - old(token).supply(),
    {
        let value = underlying_balance - token.total_supply();
        match token._mint_to(account, value) {
            Ok(()) => Ok(value),
            Err(e) => Err(e),
        }
    }
}

} // verus!
