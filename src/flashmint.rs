use vstd::prelude::*;

use crate::aft22::{AFT22Error, AFT22};
use crate::balances::BalancesManager;
use crate::types::{AccountId, Balance, TableKey, MAX_BALANCE};

verus! {

/// Errors of a flash loan of the single-asset token.
#[derive(Clone, Debug, PartialEq, Eq)]
pub enum FlashLenderError {
    /// A restriction added by the embedding contract, with its reason.
    Custom(String),
    /// The token asked for is not this one.
    WrongTokenAddress,
    /// The borrower's allowance does not cover the refund.
    AllowanceDoesNotAllowRefund,
    /// The borrower declined the loan, with its reason.
    BorrowerRejected(String),
}

/// How the borrower's contract answered the flash-loan callback.
#[derive(Clone, Debug, PartialEq, Eq)]
pub enum BorrowerReply {
    /// The callback succeeded.
    Accepted,
    /// The borrower declined, with its reason.
    Rejected(String),
    /// The borrower has no such callback.
    NoHandler,
    /// The borrower is not a contract.
    NotContract,
    /// The call failed in any other way.
    Failed,
}

impl FlashLenderError {
    /// Whether the loan goes on after the borrower's `reply`: it does when
    /// the borrower accepted, has no callback, or is not a contract.
    pub fn from_borrower_reply(reply: BorrowerReply) -> (r: Result<(), FlashLenderError>)
        ensures
            (r is Ok) == (reply is Accepted || reply is NoHandler || reply is NotContract),
            reply matches BorrowerReply::Rejected(m) ==> r == Err::<(), FlashLenderError>(
                FlashLenderError::BorrowerRejected(m),
            ),
            reply is Failed ==> r is Err && r->Err_0 is BorrowerRejected,
    {
        match reply {
            BorrowerReply::Accepted => Ok(()),
            BorrowerReply::Rejected(message) => Err(FlashLenderError::BorrowerRejected(message)),
            BorrowerReply::NoHandler => Ok(()),
            BorrowerReply::NotContract => Ok(()),
            BorrowerReply::Failed => Err(
                FlashLenderError::BorrowerRejected(
                    "Error while performing the `on_flashloan`".to_owned(),
                ),
            ),
        }
    }

    /// The flash-loan error that reports a token error.
    pub fn from_aft22(error: AFT22Error) -> (r: FlashLenderError)
        ensures
            r is Custom,
            error matches AFT22Error::Custom(m) ==> r == FlashLenderError::Custom(m),
            error matches AFT22Error::SafeTransferCheckFailed(m) ==> r == FlashLenderError::Custom(m),
    {
        match error {
            AFT22Error::Custom(message) => FlashLenderError::Custom(message),
            AFT22Error::InsufficientBalance => FlashLenderError::Custom(
                "PSP22: Insufficient Balance".to_owned(),
            ),
            AFT22Error::InsufficientAllowance => FlashLenderError::Custom(
                "PSP22: Insufficient Allowance".to_owned(),
            ),
            AFT22Error::ZeroRecipientAddress => FlashLenderError::Custom(
                "PSP22: Zero Recipient Address".to_owned(),
            ),
            AFT22Error::ZeroSenderAddress => FlashLenderError::Custom(
                "PSP22: Zero Sender Address".to_owned(),
            ),
            AFT22Error::SafeTransferCheckFailed(message) => FlashLenderError::Custom(message),
        }
    }
}

impl<B: BalancesManager> AFT22<B> {
    /// The most that can be lent of `token`: what is left below the largest
    /// supply when `token` is this token (`this`), else nothing.
    pub fn max_flashloan(&self, token: &AccountId, this: &AccountId) -> (r: Balance)
        requires
            self.wf(),
        ensures
            r == if token@ == this@ {
                MAX_BALANCE - self.supply()
            } else {
                0
            },
    {
        if token.same_key(this) {
            MAX_BALANCE - self.total_supply()
        } else {
            0
        }
    }

    /// The fee for lending `amount` of `token`: nothing, when `token` is
    /// this token; `WrongTokenAddress` otherwise.
    pub fn flash_fee(&self, token: &AccountId, this: &AccountId, amount: Balance) -> (r: Result<
        Balance,
        FlashLenderError,
    >)
        ensures
            token@ == this@ ==> r == Ok::<Balance, FlashLenderError>(0),
            token@ != this@ ==> r == Err::<Balance, FlashLenderError>(
                FlashLenderError::WrongTokenAddress,
            ),
    {
        if !token.same_key(this) {
            return Err(FlashLenderError::WrongTokenAddress);
        }
        Ok(0)
    }

    /// First half of a flash loan, before the borrower is called: computes
    /// the fee and mints `amount` to `receiver`. Returns the fee.
    pub fn flashloan_begin(
        &mut self,
        receiver: &AccountId,
        token: &AccountId,
        this: &AccountId,
        amount: Balance,
    ) -> (r: Result<Balance, FlashLenderError>)
        requires
            old(self).wf(),
            old(self).supply() + amount <= MAX_BALANCE,
        ensures
            final(self).wf(),
            token@ != this@ ==> r == Err::<Balance, FlashLenderError>(
                FlashLenderError::WrongTokenAddress,
            ) && *final(self) == *old(self),
            token@ == this@ && (old(self).cap_of() matches Some(c) && old(self).supply() + amount
                > c) ==> r is Err && *final(self) == *old(self),
            token@ == this@ && !(old(self).cap_of() matches Some(c) && old(self).supply() + amount
                > c) ==> {
                &&& r == Ok::<Balance, FlashLenderError>(0)
                &&& final(self).supply() == old(self).supply() + amount
                &&& forall|o: Seq<u8>| #[trigger]
                    final(self).bal(o) == old(self).bal(o) + if o == receiver@ {
                        amount as nat
                    } else {
                        0
                    }
                &&& forall|o: Seq<u8>, s: Seq<u8>| #[trigger]
                    final(self).allowance_of(o, s) == old(self).allowance_of(o, s)
            },
    {
        let fee = match self.flash_fee(token, this, amount) {
            Ok(f) => f,
            Err(e) => {
                return Err(e);
            },
        };
        match self._mint_to(receiver, amount) {
            Ok(()) => Ok(fee),
            Err(e) => Err(FlashLenderError::from_aft22(e)),
        }
    }

    /// Second half of a flash loan, after the borrower returned: the
    /// borrower's allowance to this token must cover `amount` and `fee`, and
    /// is lowered by both; when a fee receiver is set, `amount` is burnt from
    /// the borrower and the fee moves to the receiver (all of `amount` and
    /// `fee` is burnt when the fee is zero). Fails with
    /// `AllowanceDoesNotAllowRefund`, changing nothing, when the allowance is
    /// short.
    pub fn flashloan_end(
        &mut self,
        receiver: &AccountId,
        this: &AccountId,
        amount: Balance,
        fee: Balance,
        fee_receiver: &Option<AccountId>,
    ) -> (r: Result<(), FlashLenderError>)
        requires
            old(self).wf(),
            amount + fee <= MAX_BALANCE,
        ensures
            final(self).wf(),
            old(self).allowance_of(receiver@, this@) < amount + fee ==> r == Err::<
                (),
                FlashLenderError,
            >(FlashLenderError::AllowanceDoesNotAllowRefund) && *final(self) == *old(self),
            old(self).allowance_of(receiver@, this@) >= amount + fee && fee_receiver is None ==> {
                &&& r is Ok
                &&& final(self).supply() == old(self).supply()
                &&& forall|o: Seq<u8>| #[trigger] final(self).bal(o) == old(self).bal(o)
                &&& final(self).allowance_of(receiver@, this@) == old(self).allowance_of(
                    receiver@,
                    this@,
                ) - amount - fee
            },
            old(self).allowance_of(receiver@, this@) >= amount + fee && fee_receiver is Some
                && old(self).bal(receiver@) < amount + fee ==> r is Err,
            old(self).allowance_of(receiver@, this@) >= amount + fee && fee_receiver is Some
                && old(self).bal(receiver@) >= amount + fee ==> {
                &&& r is Ok
                &&& final(self).supply() == old(self).supply() - amount
                &&& forall|o: Seq<u8>| #[trigger]
                    final(self).bal(o) == old(self).bal(o) - (if o == receiver@ {
                        amount + fee
                    } else {
                        0
                    }) + (if o == fee_receiver->0@ {
                        fee as int
                    } else {
                        0
                    })
                &&& final(self).allowance_of(receiver@, this@) == old(self).allowance_of(
                    receiver@,
                    this@,
                ) - amount - fee
            },
    {
        let current_allowance = self.allowance(receiver, this);
        if current_allowance < amount + fee {
            return Err(FlashLenderError::AllowanceDoesNotAllowRefund);
        }
        let _ = self._approve_from_to(receiver, this, current_allowance - amount - fee);
        match fee_receiver {
            Some(fee_to) => {
                if fee == 0 {
                    match self._burn_from(receiver, amount + fee) {
                        Ok(()) => {},
                        Err(e) => {
                            return Err(FlashLenderError::from_aft22(e));
                        },
                    }
                } else {
                    match self._burn_from(receiver, amount) {
                        Ok(()) => {},
                        Err(e) => {
                            return Err(FlashLenderError::from_aft22(e));
                        },
                    }
                    match self._transfer_from_to(receiver, fee_to, fee) {
                        Ok(()) => {},
                        Err(e) => {
                            return Err(FlashLenderError::from_aft22(e));
                        },
                    }
                }
            },
            None => {},
        }
        Ok(())
    }
}

} // verus!
