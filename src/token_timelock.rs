use vstd::prelude::*;

use crate::aft22::AFT22Error;
use crate::types::{AccountId, Balance};

verus! {

/// Errors of a token timelock.
#[derive(Clone, Debug, PartialEq, Eq)]
pub enum AFT22TokenTimelockError {
    /// An error of the locked token.
    AFT22Error(AFT22Error),
    /// The tokens were asked for before the release time.
    CurrentTimeIsBeforeReleaseTime,
    /// There are no tokens to release.
    NoTokensToRelease,
    /// The release time given is not after the current time.
    ReleaseTimeIsBeforeCurrentTime,
    /// No token was set.
    TokenZeroAddress,
    /// No beneficiary was set.
    BeneficiaryZeroAddress,
}

/// Holds a token's balance for a beneficiary until a release time.
pub struct TokenTimelock {
    token: Option<AccountId>,
    beneficiary: Option<AccountId>,
    release_time: u64,
}

impl TokenTimelock {
    /// The locked token's contract, if set.
    pub closed spec fn token_of(&self) -> Option<AccountId> {
        self.token
    }

    /// Who receives the tokens, if set.
    pub closed spec fn beneficiary_of(&self) -> Option<AccountId> {
        self.beneficiary
    }

    /// When the tokens may be released.
    pub closed spec fn release_time_of(&self) -> u64 {
        self.release_time
    }

    /// A timelock with nothing set.
    pub fn new() -> (r: Self)
        ensures
            r.token_of() is None,
            r.beneficiary_of() is None,
            r.release_time_of() == 0,
    {
        TokenTimelock { token: None, beneficiary: None, release_time: 0 }
    }

    pub fn token(&self) -> (r: Option<AccountId>)
        ensures
            r == self.token_of(),
    {
        self.token
    }

    pub fn beneficiary(&self) -> (r: Option<AccountId>)
        ensures
            r == self.beneficiary_of(),
    {
        self.beneficiary
    }

    pub fn release_time(&self) -> (r: u64)
        ensures
            r == self.release_time_of(),
    {
        self.release_time
    }

    /// Sets the token, the beneficiary and the release time, which must be
    /// after `now`; otherwise `ReleaseTimeIsBeforeCurrentTime` and nothing
    /// changes.
    pub fn _init(&mut self, now: u64, token: AccountId, beneficiary: AccountId, release_time: u64) -> (r:
        Result<(), AFT22TokenTimelockError>)
        ensures
            release_time <= now ==> r == Err::<(), AFT22TokenTimelockError>(
                AFT22TokenTimelockError::ReleaseTimeIsBeforeCurrentTime,
            ) && *final(self) == *old(self),
            release_time > now ==> r is Ok && final(self).token_of() == Some(token)
                && final(self).beneficiary_of() == Some(beneficiary) && final(self).release_time_of()
                == release_time,
    {
        if release_time <= now {
            return Err(AFT22TokenTimelockError::ReleaseTimeIsBeforeCurrentTime);
        }
        self.token = Some(token);
        self.beneficiary = Some(beneficiary);
        self.release_time = release_time;
        Ok(())
    }

    /// Decides a release at time `now`, the timelock holding `held` of the
    /// token (nothing when no token is set): the token, the beneficiary and
    /// the amount to transfer, or why nothing is released.
    pub fn release(&self, now: u64, held: Balance) -> (r: Result<
        (AccountId, AccountId, Balance),
        AFT22TokenTimelockError,
    >)
        ensures
            now < self.release_time_of() ==> r == Err::<
                (AccountId, AccountId, Balance),
                AFT22TokenTimelockError,
            >(AFT22TokenTimelockError::CurrentTimeIsBeforeReleaseTime),
            now >= self.release_time_of() && (self.token_of() is None || held == 0) ==> r == Err::<
                (AccountId, AccountId, Balance),
                AFT22TokenTimelockError,
            >(AFT22TokenTimelockError::NoTokensToRelease),
            now >= self.release_time_of() && self.token_of() is Some && held > 0
                && self.beneficiary_of() is None ==> r == Err::<
                (AccountId, AccountId, Balance),
                AFT22TokenTimelockError,
            >(AFT22TokenTimelockError::BeneficiaryZeroAddress),
            now >= self.release_time_of() && self.token_of() is Some && held > 0
                && self.beneficiary_of() is Some ==> r == Ok::<
                (AccountId, AccountId, Balance),
                AFT22TokenTimelockError,
            >((self.token_of()->0, self.beneficiary_of()->0, held)),
    {
        if now < self.release_time {
            return Err(AFT22TokenTimelockError::CurrentTimeIsBeforeReleaseTime);
        }
        let amount = match self.token {
            Some(_) => held,
            None => 0,
        };
        if amount == 0 {
            return Err(AFT22TokenTimelockError::NoTokensToRelease);
        }
        match (self.token, self.beneficiary) {
            (Some(token), Some(beneficiary)) => Ok((token, beneficiary, amount)),
            (Some(_), None) => Err(AFT22TokenTimelockError::BeneficiaryZeroAddress),
            (None, _) => Err(AFT22TokenTimelockError::TokenZeroAddress),
        }
    }
}

} // verus!
