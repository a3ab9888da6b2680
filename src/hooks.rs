use vstd::prelude::*;

use crate::errors::AFT37Error;
use crate::types::{opt_account, AccountId, Balance, Id, IdView};

verus! {

/// The `(asset, amount)` pairs of a list, as views.
pub open spec fn pairs_view(s: Seq<(Id, Balance)>) -> Seq<(IdView, u128)> {
    s.map_values(|p: (Id, Balance)| (p.0@, p.1))
}

/// Policy consulted around every balance-changing operation (allow-lists,
/// caps, fees). Either call may decline, which aborts the operation.
pub trait TransferHooks {
    /// The hook's answer to a movement of `items` from `from` to `to`: `Ok`
    /// to let it through, or the error that aborts it. `after` tells the
    /// call made once balances have moved from the one made before.
    spec fn verdict(
        &self,
        after: bool,
        from: Option<Seq<u8>>,
        to: Option<Seq<u8>>,
        items: Seq<(IdView, u128)>,
    ) -> Result<(), AFT37Error>;

    fn _before_token_transfer(
        &self,
        from: &Option<AccountId>,
        to: &Option<AccountId>,
        ids: &Vec<(Id, Balance)>,
    ) -> (r: Result<(), AFT37Error>)
        ensures
            r == self.verdict(false, opt_account(*from), opt_account(*to), pairs_view(ids@)),
    ;

    fn _after_token_transfer(
        &self,
        from: &Option<AccountId>,
        to: &Option<AccountId>,
        ids: &Vec<(Id, Balance)>,
    ) -> (r: Result<(), AFT37Error>)
        ensures
            r == self.verdict(true, opt_account(*from), opt_account(*to), pairs_view(ids@)),
    ;
}

/// Hooks that accept every operation.
pub struct NoHooks;

impl TransferHooks for NoHooks {
    open spec fn verdict(
        &self,
        after: bool,
        from: Option<Seq<u8>>,
        to: Option<Seq<u8>>,
        items: Seq<(IdView, u128)>,
    ) -> Result<(), AFT37Error> {
        Ok(())
    }

    fn _before_token_transfer(
        &self,
        from: &Option<AccountId>,
        to: &Option<AccountId>,
        ids: &Vec<(Id, Balance)>,
    ) -> (r: Result<(), AFT37Error>) {
        Ok(())
    }

    fn _after_token_transfer(
        &self,
        from: &Option<AccountId>,
        to: &Option<AccountId>,
        ids: &Vec<(Id, Balance)>,
    ) -> (r: Result<(), AFT37Error>) {
        Ok(())
    }
}

} // verus!
