use vstd::prelude::*;

verus! {

/// Errors of the multi-asset ledger.
#[derive(Clone, Debug, PartialEq, Eq)]
pub enum AFT37Error {
    /// A restriction added by the embedding contract (for example a transfer
    /// hook) declined the operation, with its reason.
    Custom(String),
    /// A balance or an allowance is smaller than the amount asked for.
    InsufficientBalance,
    /// The recipient is the zero account.
    TransferToZeroAddress,
    /// The asset has no supply.
    TokenNotExists,
    /// The operator's allowance does not cover the transfer.
    NotAllowed,
    /// An owner tried to approve itself.
    SelfApprove,
    /// A receiving contract rejected a transfer, with its reason.
    SafeTransferCheckFailed(String),
}

} // verus!
