use vstd::prelude::*;
use vstd::string::StringExecFns;

use crate::multi_mapping::{list_without, MultiMapping};
use crate::table::{lookup, Table};
use crate::types::{
    clone_opt_id, opt_id, AccountId, ApprovalsKey, Balance, EnumerableKey, Id, IdView, TableKey,
};

verus! {

/// Errors of the exclusive-ownership token.
#[derive(Clone, Debug, PartialEq, Eq)]
pub enum AFT34Error {
    /// A restriction added by the embedding contract, with its reason.
    Custom(String),
    /// An owner tried to approve itself.
    SelfApprove,
    /// The caller is not allowed to move the token.
    NotApproved,
    /// The token already has an owner.
    TokenExists,
    /// The token has no owner.
    TokenNotExists,
    /// A receiving contract rejected a transfer, with its reason.
    SafeTransferCheckFailed(String),
}

/// Storage of the exclusive-ownership token: each token's owner, operator
/// approvals (per token, or `None` for all of an owner's tokens), and the
/// enumerable lists of the tokens of each owner and of all tokens.
pub struct AFT34Balances {
    token_owner: Table<Id, AccountId>,
    operator_approvals: Table<ApprovalsKey, ()>,
    balances: MultiMapping<EnumerableKey, Id>,
}

impl AFT34Balances {
    /// The owner of `id`, if any.
    pub closed spec fn owner(&self, id: IdView) -> Option<AccountId> {
        lookup(self.token_owner.items(), id)
    }

    /// Whether `owner` approved `operator` for `Some(token)` or, with
    /// `None`, for all its tokens.
    pub closed spec fn approved(&self, owner: Seq<u8>, operator: Seq<u8>, id: Option<IdView>) -> bool {
        lookup(self.operator_approvals.items(), (owner, operator, id)) is Some
    }

    /// The tokens listed for `Some(owner)`, or all tokens for `None`.
    pub closed spec fn tokens(&self, owner: Option<Seq<u8>>) -> Seq<IdView> {
        self.balances.list(owner)
    }

    pub closed spec fn wf(&self) -> bool {
        self.token_owner.wf() && self.operator_approvals.wf() && self.balances.wf()
    }

    /// Nothing owned, listed or approved.
    pub fn new() -> (r: Self)
        ensures
            r.wf(),
            forall|id: IdView| #[trigger] r.owner(id) is None,
            forall|o: Option<Seq<u8>>| #[trigger] r.tokens(o) == Seq::<IdView>::empty(),
            forall|o: Seq<u8>, op: Seq<u8>, id: Option<IdView>| !#[trigger] r.approved(o, op, id),
    {
        AFT34Balances {
            token_owner: Table::new(),
            operator_approvals: Table::new(),
            balances: MultiMapping::new(),
        }
    }

    /// The number of tokens listed for `owner`, cut to 32 bits.
    pub fn _balance_of(&self, owner: &AccountId) -> (r: u32)
        requires
            self.wf(),
        ensures
            r == self.tokens(Some(owner@)).len() as u32,
    {
        #[verifier::truncate]
        (self.balances.count(&EnumerableKey { owner: Some(owner.key_clone()) }) as u32)
    }

    /// The number of tokens listed for all owners.
    pub fn _total_supply(&self) -> (r: Balance)
        requires
            self.wf(),
        ensures
            r == self.tokens(None).len(),
    {
        self.balances.count(&EnumerableKey { owner: None }) as u128
    }

    /// Lists `id` for `owner`, and for all owners with `increase_supply`.
    pub fn _increase_balance(&mut self, owner: &AccountId, id: &Id, increase_supply: bool)
        requires
            old(self).wf(),
        ensures
            final(self).wf(),
            forall|o: Option<Seq<u8>>| #[trigger]
                final(self).tokens(o) == if o == Some(owner@) || (increase_supply && o is None) {
                    old(self).tokens(o).push(id@)
                } else {
                    old(self).tokens(o)
                },
            forall|i: IdView| #[trigger] final(self).owner(i) == old(self).owner(i),
            forall|o: Seq<u8>, op: Seq<u8>, i: Option<IdView>| #[trigger]
                final(self).approved(o, op, i) == old(self).approved(o, op, i),
    {
        self.balances.insert(&EnumerableKey { owner: Some(owner.key_clone()) }, id.key_clone());
        if increase_supply {
            self.balances.insert(&EnumerableKey { owner: None }, id.key_clone());
        }
    }

    /// Removes `id` from the list of `owner`, and from the list of all
    /// owners with `decrease_supply`; the last listed token takes its place.
    pub fn _decrease_balance(&mut self, owner: &AccountId, id: &Id, decrease_supply: bool)
        requires
            old(self).wf(),
        ensures
            final(self).wf(),
            forall|o: Option<Seq<u8>>| #[trigger]
                final(self).tokens(o) == if o == Some(owner@) || (decrease_supply && o is None) {
                    list_without(old(self).tokens(o), id@)
                } else {
                    old(self).tokens(o)
                },
            forall|i: IdView| #[trigger] final(self).owner(i) == old(self).owner(i),
            forall|o: Seq<u8>, op: Seq<u8>, i: Option<IdView>| #[trigger]
                final(self).approved(o, op, i) == old(self).approved(o, op, i),
    {
        self.balances.remove_value(&EnumerableKey { owner: Some(owner.key_clone()) }, id);
        if decrease_supply {
            self.balances.remove_value(&EnumerableKey { owner: None }, id);
        }
    }

    /// The owner of `id`, if any.
    pub fn _owner_of(&self, id: &Id) -> (r: Option<AccountId>)
        requires
            self.wf(),
        ensures
            r == self.owner(id@),
    {
        self.token_owner.get(id)
    }

    /// Makes `to` the owner of `id`.
    pub fn _insert_token_owner(&mut self, id: &Id, to: &AccountId)
        requires
            old(self).wf(),
        ensures
            final(self).wf(),
            forall|i: IdView| #[trigger]
                final(self).owner(i) == if i == id@ {
                    Some(*to)
                } else {
                    old(self).owner(i)
                },
            forall|o: Option<Seq<u8>>| #[trigger] final(self).tokens(o) == old(self).tokens(o),
            forall|o: Seq<u8>, op: Seq<u8>, i: Option<IdView>| #[trigger]
                final(self).approved(o, op, i) == old(self).approved(o, op, i),
    {
        self.token_owner.insert(id.key_clone(), *to);
    }

    /// Leaves `id` without an owner.
    pub fn _remove_token_owner(&mut self, id: &Id)
        requires
            old(self).wf(),
        ensures
            final(self).wf(),
            forall|i: IdView| #[trigger]
                final(self).owner(i) == if i == id@ {
                    None
                } else {
                    old(self).owner(i)
                },
            forall|o: Option<Seq<u8>>| #[trigger] final(self).tokens(o) == old(self).tokens(o),
            forall|o: Seq<u8>, op: Seq<u8>, i: Option<IdView>| #[trigger]
                final(self).approved(o, op, i) == old(self).approved(o, op, i),
    {
        self.token_owner.remove(id);
    }

    /// `Some(())` when `owner` approved `operator` for `id` (`None`: for
    /// all its tokens).
    pub fn _operator_approvals(&self, owner: &AccountId, operator: &AccountId, id: &Option<Id>) -> (r:
        Option<()>)
        requires
            self.wf(),
        ensures
            (r is Some) == self.approved(owner@, operator@, opt_id(*id)),
    {
        let key = ApprovalsKey {
            owner: owner.key_clone(),
            operator: operator.key_clone(),
            id: clone_opt_id(id),
        };
        self.operator_approvals.get(&key)
    }

    /// Records that `owner` approves `operator` for `id` (`None`: for all
    /// its tokens).
    pub fn _insert_operator_approvals(&mut self, owner: &AccountId, operator: &AccountId, id: &Option<Id>)
        requires
            old(self).wf(),
        ensures
            final(self).wf(),
            forall|o: Seq<u8>, op: Seq<u8>, i: Option<IdView>| #[trigger]
                final(self).approved(o, op, i) == ((o == owner@ && op == operator@ && i == opt_id(
                    *id,
                )) || old(self).approved(o, op, i)),
            forall|i: IdView| #[trigger] final(self).owner(i) == old(self).owner(i),
            forall|o: Option<Seq<u8>>| #[trigger] final(self).tokens(o) == old(self).tokens(o),
    {
        let key = ApprovalsKey {
            owner: owner.key_clone(),
            operator: operator.key_clone(),
            id: clone_opt_id(id),
        };
        self.operator_approvals.insert(key, ());
    }

    /// Withdraws the approval of `operator` by `owner` for `id` (`None`: for
    /// all its tokens).
    pub fn _remove_operator_approvals(&mut self, owner: &AccountId, operator: &AccountId, id: &Option<Id>)
        requires
            old(self).wf(),
        ensures
            final(self).wf(),
            forall|o: Seq<u8>, op: Seq<u8>, i: Option<IdView>| #[trigger]
                final(self).approved(o, op, i) == (!(o == owner@ && op == operator@ && i == opt_id(
                    *id,
                )) && old(self).approved(o, op, i)),
            forall|i: IdView| #[trigger] final(self).owner(i) == old(self).owner(i),
            forall|o: Option<Seq<u8>>| #[trigger] final(self).tokens(o) == old(self).tokens(o),
    {
        let key = ApprovalsKey {
            owner: owner.key_clone(),
            operator: operator.key_clone(),
            id: clone_opt_id(id),
        };
        self.operator_approvals.remove(&key);
    }

    /// The token at position `index` of `owner`'s list; `TokenNotExists`
    /// past its end.
    pub fn owners_token_by_index(&self, owner: &AccountId, index: u128) -> (r: Result<Id, AFT34Error>)
        requires
            self.wf(),
        ensures
            match r {
                Ok(v) => index < self.tokens(Some(owner@)).len() && v@ == self.tokens(
                    Some(owner@),
                )[index as int],
                Err(e) => index >= self.tokens(Some(owner@)).len() && e == AFT34Error::TokenNotExists,
            },
    {
        match self.balances.get_value(&EnumerableKey { owner: Some(owner.key_clone()) }, index) {
            Some(v) => Ok(v),
            None => Err(AFT34Error::TokenNotExists),
        }
    }

    /// The token at position `index` of the list of all tokens;
    /// `TokenNotExists` past its end.
    pub fn token_by_index(&self, index: u128) -> (r: Result<Id, AFT34Error>)
        requires
            self.wf(),
        ensures
            match r {
                Ok(v) => index < self.tokens(None).len() && v@ == self.tokens(None)[index as int],
                Err(e) => index >= self.tokens(None).len() && e == AFT34Error::TokenNotExists,
            },
    {
        match self.balances.get_value(&EnumerableKey { owner: None }, index) {
            Some(v) => Ok(v),
            None => Err(AFT34Error::TokenNotExists),
        }
    }
}

/// Sale of numbered tokens by minting: the last number minted, the largest
/// number allowed, and the price of one token.
pub struct AFT34PayableMint {
    pub last_token_id: u64,
    pub max_supply: u64,
    pub price_per_mint: Balance,
}

impl AFT34PayableMint {
    /// Checks that `transferred_value` pays exactly `mint_amount` tokens;
    /// otherwise, or when that price does not fit in an amount, `Custom`.
    pub fn check_value(&self, transferred_value: u128, mint_amount: u64) -> (r: Result<(), AFT34Error>)
        ensures
            (r is Ok) == (mint_amount * self.price_per_mint <= u128::MAX && transferred_value
                == mint_amount * self.price_per_mint),
            r is Err ==> r->Err_0 is Custom,
    {
        if let Some(value) = (mint_amount as u128).checked_mul(self.price_per_mint) {
            if transferred_value == value {
                return Ok(());
            }
        }
        Err(AFT34Error::Custom("BadMintValue".to_owned()))
    }

    /// Checks that `mint_amount` more tokens, numbered after the last one,
    /// stay within the largest number; `Custom` for a zero amount or a full
    /// collection.
    pub fn check_amount(&self, mint_amount: u64) -> (r: Result<(), AFT34Error>)
        ensures
            (r is Ok) == (mint_amount > 0 && self.last_token_id + mint_amount <= self.max_supply),
            r is Err ==> r->Err_0 is Custom,
    {
        if mint_amount == 0 {
            return Err(AFT34Error::Custom("CannotMintZeroTokens".to_owned()));
        }
        if let Some(amount) = self.last_token_id.checked_add(mint_amount) {
            if amount <= self.max_supply {
                return Ok(());
            }
        }
        Err(AFT34Error::Custom("CollectionIsFull".to_owned()))
    }

    /// `TokenNotExists` unless `id` has an owner.
    pub fn token_exists(&self, tokens: &AFT34Balances, id: &Id) -> (r: Result<(), AFT34Error>)
        requires
            tokens.wf(),
        ensures
            (r is Ok) == (tokens.owner(id@) is Some),
            r is Err ==> r == Err::<(), AFT34Error>(AFT34Error::TokenNotExists),
    {
        match tokens._owner_of(id) {
            Some(_) => Ok(()),
            None => Err(AFT34Error::TokenNotExists),
        }
    }
}

/// Token URIs: an optional base shared by all tokens and a URI per token.
pub struct AFT34URIStorage {
    base_uri: Option<String>,
    token_uris: Table<Id, String>,
}

impl AFT34URIStorage {
    /// The shared base, if set.
    pub closed spec fn base(&self) -> Option<String> {
        self.base_uri
    }

    /// The URI set for `id`, if any.
    pub closed spec fn uri_of(&self, id: IdView) -> Option<String> {
        lookup(self.token_uris.items(), id)
    }

    pub closed spec fn wf(&self) -> bool {
        self.token_uris.wf()
    }

    /// No base and no token URIs.
    pub fn new() -> (r: Self)
        ensures
            r.wf(),
            r.base() is None,
            forall|id: IdView| #[trigger] r.uri_of(id) is None,
    {
        AFT34URIStorage { base_uri: None, token_uris: Table::new() }
    }

    /// The shared base, if set.
    pub fn base_uri(&self) -> (r: Option<String>)
        ensures
            r == self.base(),
    {
        match &self.base_uri {
            Some(b) => Some(b.clone()),
            None => None,
        }
    }

    /// Sets the shared base.
    pub fn _set_base_uri(&mut self, base_uri: Option<String>)
        requires
            old(self).wf(),
        ensures
            final(self).wf(),
            final(self).base() == base_uri,
            forall|id: IdView| #[trigger] final(self).uri_of(id) == old(self).uri_of(id),
    {
        self.base_uri = base_uri;
    }

    /// Sets the URI of `token_id`, which must have an owner in `tokens`;
    /// otherwise `TokenNotExists` and nothing changes.
    pub fn _set_token_uri(&mut self, tokens: &AFT34Balances, token_id: Id, token_uri: String) -> (r:
        Result<(), AFT34Error>)
        requires
            old(self).wf(),
            tokens.wf(),
        ensures
            final(self).wf(),
            tokens.owner(token_id@) is None ==> r == Err::<(), AFT34Error>(
                AFT34Error::TokenNotExists,
            ) && *final(self) == *old(self),
            tokens.owner(token_id@) is Some ==> r is Ok && final(self).base() == old(self).base()
                && forall|id: IdView| #[trigger]
                final(self).uri_of(id) == if id == token_id@ {
                    Some(token_uri)
                } else {
                    old(self).uri_of(id)
                },
    {
        if tokens._owner_of(&token_id).is_none() {
            return Err(AFT34Error::TokenNotExists);
        }
        self.token_uris.insert(token_id, token_uri);
        Ok(())
    }

    /// Forgets the URI of `id`.
    pub fn _remove_token_uri(&mut self, id: &Id)
        requires
            old(self).wf(),
        ensures
            final(self).wf(),
            final(self).base() == old(self).base(),
            forall|i: IdView| #[trigger]
                final(self).uri_of(i) == if i == id@ {
                    None
                } else {
                    old(self).uri_of(i)
                },
    {
        self.token_uris.remove(id);
    }

    /// The URI of `token_id`: the base followed by the token's URI, or the
    /// token's URI alone without a base, or `None` when the token has no
    /// URI. `TokenNotExists` when the token has no owner.
    pub fn token_uri(&self, tokens: &AFT34Balances, token_id: Id) -> (r: Result<Option<String>, AFT34Error>)
        requires
            self.wf(),
            tokens.wf(),
        ensures
            tokens.owner(token_id@) is None ==> r == Err::<Option<String>, AFT34Error>(
                AFT34Error::TokenNotExists,
            ),
            tokens.owner(token_id@) is Some && self.uri_of(token_id@) is None ==> r == Ok::<
                Option<String>,
                AFT34Error,
            >(None),
            tokens.owner(token_id@) is Some && self.uri_of(token_id@) is Some ==> r is Ok
                && r->Ok_0 is Some && r->Ok_0->0@ == match self.base() {
                Some(b) => b@ + self.uri_of(token_id@)->0@,
                None => self.uri_of(token_id@)->0@,
            },
    {
        if tokens._owner_of(&token_id).is_none() {
            return Err(AFT34Error::TokenNotExists);
        }
        match self.token_uris.get(&token_id) {
            None => Ok(None),
            Some(uri) => match &self.base_uri {
                Some(base) => Ok(Some(base.clone().concat(uri.as_str()))),
                None => Ok(Some(uri)),
            },
        }
    }
}

} // verus!
