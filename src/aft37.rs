use vstd::prelude::*;

use crate::balances::{amount_in, supply_in, total_held, BalanceItems, BalancesManager};
use crate::enumerable::EnumerableBalances;
use crate::multi_mapping::list_without;
use crate::errors::AFT37Error;
use crate::hooks::{pairs_view, NoHooks, TransferHooks};
use crate::table::{lookup, Table};
use crate::types::{
    clone_opt_id, opt_id, AccountId, ApprovalsKey, Balance, Id, IdView, TableKey, MAX_BALANCE,
};

verus! {

/// Sum of the amounts listed for `id`.
pub open spec fn listed_sum(s: Seq<(IdView, u128)>, id: IdView) -> nat
    decreases s.len(),
{
    if s.len() == 0 {
        0
    } else {
        listed_sum(s.drop_last(), id) + if s.last().0 == id {
            s.last().1 as nat
        } else {
            0
        }
    }
}

/// Whether `id` occurs in the list.
pub open spec fn lists(s: Seq<(IdView, u128)>, id: IdView) -> bool {
    exists|j: int| 0 <= j < s.len() && #[trigger] s[j].0 == id
}

/// What `amount` contributes when `(o, i)` is the pair `(who, id)`.
pub open spec fn part(o: Seq<u8>, i: IdView, who: Seq<u8>, id: IdView, amount: nat) -> nat {
    if o == who && i == id {
        amount
    } else {
        0
    }
}

pub proof fn lemma_listed_prefix(s: Seq<(IdView, u128)>, k: int, id: IdView)
    requires
        0 <= k < s.len(),
    ensures
        listed_sum(s.take(k + 1), id) == listed_sum(s.take(k), id) + if s[k].0 == id {
            s[k].1 as nat
        } else {
            0
        },
{
    assert(s.take(k + 1).drop_last() =~= s.take(k));
}

pub proof fn lemma_listed_mono(s: Seq<(IdView, u128)>, k: int, id: IdView)
    requires
        0 <= k <= s.len(),
    ensures
        listed_sum(s.take(k), id) <= listed_sum(s, id),
    decreases s.len() - k,
{
    if k < s.len() {
        lemma_listed_prefix(s, k, id);
        lemma_listed_mono(s, k + 1, id);
    } else {
        assert(s.take(k) =~= s);
    }
}

pub proof fn lemma_listed_zero(s: Seq<(IdView, u128)>, id: IdView)
    requires
        !lists(s, id),
    ensures
        listed_sum(s, id) == 0,
    decreases s.len(),
{
    if s.len() > 0 {
        assert(!lists(s.drop_last(), id)) by {
            if lists(s.drop_last(), id) {
                let j = choose|j: int| 0 <= j < s.drop_last().len() && #[trigger] s.drop_last()[j].0 == id;
                assert(s[j].0 == id);
            }
        }
        lemma_listed_zero(s.drop_last(), id);
        assert(s[s.len() - 1].0 != id);
    }
}

/// An owner's quantity never exceeds the total held by everybody.
pub proof fn lemma_amount_le_total(s: BalanceItems, o: Seq<u8>, id: IdView)
    ensures
        amount_in(s, o, id) <= total_held(s, id),
    decreases s.len(),
{
    if s.len() > 0 {
        lemma_amount_le_total(s.drop_last(), o, id);
    }
}

/// Two distinct owners together hold no more than everybody.
pub proof fn lemma_two_le_total(s: BalanceItems, a: Seq<u8>, b: Seq<u8>, id: IdView)
    requires
        a != b,
    ensures
        amount_in(s, a, id) + amount_in(s, b, id) <= total_held(s, id),
    decreases s.len(),
{
    if s.len() > 0 {
        let d = s.drop_last();
        lemma_two_le_total(d, a, b, id);
        lemma_amount_le_total(d, a, id);
        lemma_amount_le_total(d, b, id);
    }
}

/// The enumeration list `l` after the listed amounts are added, in order,
/// to quantities that start at `base`: an asset is appended when its
/// quantity leaves zero.
pub open spec fn grown(l: Seq<IdView>, base: spec_fn(IdView) -> nat, s: Seq<(IdView, u128)>) -> Seq<
    IdView,
>
    decreases s.len(),
{
    if s.len() == 0 {
        l
    } else {
        let p = grown(l, base, s.drop_last());
        if s.last().1 > 0 && base(s.last().0) + listed_sum(s.drop_last(), s.last().0) == 0 {
            p.push(s.last().0)
        } else {
            p
        }
    }
}

/// The enumeration list `l` after the listed amounts are taken, in order,
/// from quantities that start at `base`: an asset leaves the list, the last
/// one taking its place, when its quantity reaches zero.
pub open spec fn shrunk(l: Seq<IdView>, base: spec_fn(IdView) -> nat, s: Seq<(IdView, u128)>) -> Seq<
    IdView,
>
    decreases s.len(),
{
    if s.len() == 0 {
        l
    } else {
        let p = shrunk(l, base, s.drop_last());
        if s.last().1 > 0 && base(s.last().0) == listed_sum(s, s.last().0) {
            list_without(p, s.last().0)
        } else {
            p
        }
    }
}

/// Whether the amounts listed for `id` add up to at most `limit`.
pub fn listed_within(items: &Vec<(Id, Balance)>, id: &Id, limit: u128) -> (r: bool)
    ensures
        r == (listed_sum(pairs_view(items@), id@) <= limit),
{
    let ghost s = pairs_view(items@);
    let mut acc: u128 = 0;
    let mut k: usize = 0;
    while k < items.len()
        invariant
            0 <= k <= items@.len(),
            s == pairs_view(items@),
            acc == listed_sum(s.take(k as int), id@),
            acc <= limit,
        decreases items@.len() - k,
    {
        proof {
            assert(s[k as int] == (items@[k as int].0@, items@[k as int].1));
            lemma_listed_prefix(s, k as int, id@);
        }
        if items[k].0.same_key(id) {
            if items[k].1 > limit - acc {
                proof {
                    lemma_listed_mono(s, k as int + 1, id@);
                }
                return false;
            }
            acc = acc + items[k].1;
        }
        k = k + 1;
    }
    proof {
        assert(s.take(k as int) =~= s);
    }
    true
}

pub proof fn lemma_lists_prefix(s: Seq<(IdView, u128)>, k: int, id: IdView)
    requires
        0 <= k < s.len(),
    ensures
        lists(s.take(k + 1), id) == (lists(s.take(k), id) || s[k].0 == id),
{
    if lists(s.take(k + 1), id) && s[k].0 != id {
        let j = choose|j: int| 0 <= j < s.take(k + 1).len() && #[trigger] s.take(k + 1)[j].0 == id;
        assert(s.take(k)[j].0 == id);
    }
    if lists(s.take(k), id) {
        let j = choose|j: int| 0 <= j < s.take(k).len() && #[trigger] s.take(k)[j].0 == id;
        assert(s.take(k + 1)[j].0 == id);
    }
    if s[k].0 == id {
        assert(s.take(k + 1)[k].0 == id);
    }
}

/// The multi-asset ledger: balances and supplies in a backend `B`, operator
/// approvals, and the transfer policy `H` consulted around every movement.
pub struct AFT37<B, H> {
    balances: B,
    approvals: Table<ApprovalsKey, u128>,
    hooks: H,
}

impl<B: BalancesManager, H: TransferHooks> AFT37<B, H> {
    /// Quantity of `id` held by `owner`.
    pub open spec fn bal(&self, owner: Seq<u8>, id: IdView) -> nat {
        amount_in(self.store().balance_items(), owner, id)
    }

    /// Total supply of `id`.
    pub open spec fn supply(&self, id: IdView) -> nat {
        supply_in(self.store().supply_items(), id)
    }

    /// Sum over all accounts of the quantity of `id` they hold.
    pub open spec fn held_sum(&self, id: IdView) -> nat {
        total_held(self.store().balance_items(), id)
    }

    /// Value at the aggregate key: distinct assets held by `Some(owner)`, or
    /// in existence for `None`.
    pub open spec fn distinct(&self, owner: Option<Seq<u8>>) -> nat {
        self.store().aggregate(owner)
    }

    /// Assets that `owner` holds a nonzero quantity of.
    pub open spec fn held(&self, owner: Seq<u8>) -> Set<IdView> {
        Set::new(|id: IdView| self.bal(owner, id) > 0)
    }

    /// Assets with nonzero total supply.
    pub open spec fn existing(&self) -> Set<IdView> {
        Set::new(|id: IdView| self.supply(id) > 0)
    }

    /// The stored approval of `operator` by `owner` for `Some(asset)`, or
    /// the blanket approval for `None`.
    pub closed spec fn approval(&self, owner: Seq<u8>, operator: Seq<u8>, id: Option<IdView>) -> Option<
        u128,
    > {
        lookup(self.approvals.items(), (owner, operator, id))
    }

    /// How much `operator` may move of `owner`'s `id`: unlimited under a
    /// blanket approval, else the stored per-asset allowance or zero.
    pub open spec fn allowance_of(&self, owner: Seq<u8>, operator: Seq<u8>, id: Option<IdView>) -> nat {
        if self.approval(owner, operator, None) is Some {
            MAX_BALANCE as nat
        } else {
            match self.approval(owner, operator, id) {
                Some(v) => v as nat,
                None => 0,
            }
        }
    }

    /// The transfer policy.
    pub closed spec fn policy(&self) -> H {
        self.hooks
    }

    /// The balance backend.
    pub closed spec fn store(&self) -> B {
        self.balances
    }

    pub closed spec fn wf(&self) -> bool {
        &&& self.balances.wf()
        &&& self.approvals.wf()
        &&& forall|id: IdView| #[trigger]
            supply_in(self.balances.supply_items(), id) == total_held(
                self.balances.balance_items(),
                id,
            )
        &&& forall|o: Seq<u8>, op: Seq<u8>| #[trigger]
            lookup(self.approvals.items(), (o, op, None::<IdView>)) is Some ==> lookup(
                self.approvals.items(),
                (o, op, None::<IdView>),
            ) == Some(MAX_BALANCE)
    }

    /// The supply of each asset is what the accounts hold of it together.
    pub proof fn lemma_supply_is_held_sum(&self)
        requires
            self.wf(),
        ensures
            forall|id: IdView| #[trigger] self.supply(id) == self.held_sum(id),
    {
        assert forall|id: IdView| #[trigger] self.supply(id) == self.held_sum(id) by {
            assert(supply_in(self.balances.supply_items(), id) == total_held(
                self.balances.balance_items(),
                id,
            ));
        }
    }

    /// The backend is well formed whenever the ledger is.
    pub proof fn lemma_store_wf(&self)
        requires
            self.wf(),
        ensures
            self.store().wf(),
            forall|o: Seq<u8>, i: IdView| #[trigger]
                self.bal(o, i) == amount_in(self.store().balance_items(), o, i),
            forall|i: IdView| #[trigger] self.supply(i) == supply_in(self.store().supply_items(), i),
            forall|o: Option<Seq<u8>>| #[trigger] self.distinct(o) == self.store().aggregate(o),
    {
    }

    /// An empty ledger with the given policy.
    pub fn new(hooks: H) -> (r: Self)
        ensures
            r.wf(),
            r.policy() == hooks,
            forall|o: Seq<u8>, i: IdView| #[trigger] r.bal(o, i) == 0,
            forall|i: IdView| #[trigger] r.supply(i) == 0,
            forall|o: Seq<u8>, op: Seq<u8>, i: Option<IdView>| #[trigger]
                r.approval(o, op, i) is None,
            forall|o: Option<Seq<u8>>| #[trigger] r.listed(o) == Seq::<IdView>::empty(),
    {
        let r = AFT37 { balances: B::new(), approvals: Table::new(), hooks };
        assert forall|id: IdView| #[trigger]
            supply_in(r.balances.supply_items(), id) == total_held(r.balances.balance_items(), id) by {
        }
        r
    }

    /// Quantity of `id` held by `owner`, or with `None` the number of
    /// distinct assets it holds.
    pub fn balance_of(&self, owner: &AccountId, id: &Option<Id>) -> (r: Balance)
        requires
            self.wf(),
        ensures
            r as nat == match id {
                Some(i) => self.bal(owner@, i@),
                None => self.distinct(Some(owner@)),
            },
    {
        self.balances._balance_of(owner, id)
    }

    /// Total supply of `id`, or with `None` the number of distinct assets in
    /// existence.
    pub fn total_supply(&self, id: &Option<Id>) -> (r: Balance)
        requires
            self.wf(),
        ensures
            r as nat == match id {
                Some(i) => self.supply(i@),
                None => self.distinct(None),
            },
    {
        self.balances._total_supply(id)
    }

    /// Fails with `TokenNotExists` when `id` has no supply.
    pub fn _token_exists(&self, id: &Id) -> (r: Result<(), AFT37Error>)
        requires
            self.wf(),
        ensures
            r is Ok <==> self.supply(id@) > 0,
            r is Err ==> r == Err::<(), AFT37Error>(AFT37Error::TokenNotExists),
    {
        if self.balances._total_supply(&Some(id.key_clone())) == 0 {
            return Err(AFT37Error::TokenNotExists);
        }
        Ok(())
    }

    fn approval_get(&self, owner: &AccountId, operator: &AccountId, id: &Option<Id>) -> (r: Option<
        u128,
    >)
        requires
            self.approvals.wf(),
        ensures
            r == self.approval(owner@, operator@, opt_id(*id)),
    {
        let key = ApprovalsKey {
            owner: owner.key_clone(),
            operator: operator.key_clone(),
            id: clone_opt_id(id),
        };
        self.approvals.get(&key)
    }

    /// The allowance of `operator` over `owner`'s `id` (`None`: over all
    /// assets): the unlimited amount under a blanket approval, regardless of
    /// `id`; otherwise the stored amount, or zero.
    pub fn allowance(&self, owner: &AccountId, operator: &AccountId, id: &Option<Id>) -> (r: Balance)
        requires
            self.wf(),
        ensures
            r as nat == self.allowance_of(owner@, operator@, opt_id(*id)),
    {
        match self.approval_get(owner, operator, &None) {
            Some(_) => MAX_BALANCE,
            None => match self.approval_get(owner, operator, id) {
                Some(v) => v,
                None => 0,
            },
        }
    }

    /// `caller` sets the allowance of `operator` over its `id`, or with
    /// `None` grants (any nonzero `value`, always unlimited) or revokes
    /// (`value` zero) a blanket approval. A zero `value` deletes the entry.
    pub fn approve(&mut self, caller: &AccountId, operator: &AccountId, id: &Option<Id>, value: Balance) -> (r:
        Result<(), AFT37Error>)
        requires
            old(self).wf(),
        ensures
            final(self).wf(),
            r is Err <==> caller@ == operator@,
            r is Err ==> r == Err::<(), AFT37Error>(AFT37Error::SelfApprove) && *final(self) == *old(
                self,
            ),
            final(self).store() == old(self).store(),
            final(self).policy() == old(self).policy(),
            r is Ok ==> forall|o: Seq<u8>, op: Seq<u8>, i: Option<IdView>| #[trigger]
                final(self).approval(o, op, i) == if o == caller@ && op == operator@ && i == opt_id(
                    *id,
                ) {
                    if value == 0 {
                        None
                    } else if id is None {
                        Some(MAX_BALANCE)
                    } else {
                        Some(value)
                    }
                } else {
                    old(self).approval(o, op, i)
                },
    {
        if caller.same_key(operator) {
            return Err(AFT37Error::SelfApprove);
        }
        let key = ApprovalsKey {
            owner: caller.key_clone(),
            operator: operator.key_clone(),
            id: clone_opt_id(id),
        };
        if value == 0 {
            self.approvals.remove(&key);
        } else if id.is_some() {
            self.approvals.insert(key, value);
        } else {
            self.approvals.insert(key, MAX_BALANCE);
        }
        Ok(())
    }

    /// Consumes `value` of the allowance of `operator` over `owner`'s `id`.
    /// Nothing changes when `owner` is the operator or the allowance is
    /// unlimited; fails with `InsufficientBalance` when the allowance is
    /// smaller than `value`; else the per-asset entry is set to what is left
    /// (a blanket approval itself is never decremented).
    pub fn _decrease_allowance(&mut self, owner: &AccountId, operator: &AccountId, id: &Id, value: Balance) -> (r:
        Result<(), AFT37Error>)
        requires
            old(self).wf(),
        ensures
            final(self).wf(),
            final(self).store() == old(self).store(),
            final(self).policy() == old(self).policy(),
            r is Err <==> owner@ != operator@ && old(self).allowance_of(owner@, operator@, Some(id@))
                != MAX_BALANCE && old(self).allowance_of(owner@, operator@, Some(id@)) < value,
            r is Err ==> r == Err::<(), AFT37Error>(AFT37Error::InsufficientBalance),
            owner@ == operator@ || old(self).allowance_of(owner@, operator@, Some(id@))
                == MAX_BALANCE || r is Err ==> *final(self) == *old(self),
            forall|o: Seq<u8>, op: Seq<u8>, i: Option<IdView>| #[trigger]
                final(self).approval(o, op, i) == if r is Ok && owner@ != operator@
                    && old(self).allowance_of(owner@, operator@, Some(id@)) != MAX_BALANCE && o
                    == owner@ && op == operator@ && i == Some(id@) {
                    Some((old(self).allowance_of(owner@, operator@, Some(id@)) - value) as u128)
                } else {
                    old(self).approval(o, op, i)
                },
    {
        if owner.same_key(operator) {
            return Ok(());
        }
        let initial = self.allowance(owner, operator, &Some(id.key_clone()));
        if initial == MAX_BALANCE {
            return Ok(());
        }
        if initial < value {
            return Err(AFT37Error::InsufficientBalance);
        }
        let key = ApprovalsKey {
            owner: owner.key_clone(),
            operator: operator.key_clone(),
            id: Some(id.key_clone()),
        };
        self.approvals.insert(key, initial - value);
        Ok(())
    }

    /// The assets held by `Some(owner)`, or in existence for `None`, in
    /// enumeration order.
    pub open spec fn listed(&self, owner: Option<Seq<u8>>) -> Seq<IdView> {
        self.store().listed(owner)
    }

    /// `owner`'s quantity of each asset.
    pub open spec fn bal_of(&self, owner: Seq<u8>) -> spec_fn(IdView) -> nat {
        |i: IdView| self.bal(owner, i)
    }

    /// The supply of each asset.
    pub open spec fn supply_of(&self) -> spec_fn(IdView) -> nat {
        |i: IdView| self.supply(i)
    }

    /// `owner`'s quantity of each asset once `from` gave up the listed
    /// amounts.
    pub open spec fn bal_less(&self, owner: Seq<u8>, from: Seq<u8>, s: Seq<(IdView, u128)>) -> spec_fn(
        IdView,
    ) -> nat {
        |i: IdView| (self.bal(owner, i) - if owner == from {
            listed_sum(s, i)
        } else {
            0
        }) as nat
    }

    /// The enumeration list of `o` after the listed amounts move from `from`
    /// to `to`: all taken first, in order, then all added, in order.
    pub open spec fn moved_listed(&self, o: Option<Seq<u8>>, from: Seq<u8>, to: Seq<u8>, s: Seq<(IdView, u128)>) -> Seq<IdView> {
        let mid = if o == Some(from) {
            shrunk(self.listed(o), self.bal_of(from), s)
        } else {
            self.listed(o)
        };
        if o == Some(to) {
            grown(mid, self.bal_less(to, from, s), s)
        } else {
            mid
        }
    }

    /// The stored approvals, as views.
    pub closed spec fn approval_items(&self) -> Seq<((Seq<u8>, Seq<u8>, Option<IdView>), u128)> {
        self.approvals.items()
    }

    /// `other` holds the same quantities, supplies, aggregates, enumeration
    /// lists and approvals.
    pub open spec fn mirrors<H2: TransferHooks>(&self, other: AFT37<B, H2>) -> bool {
        &&& self.store().balance_items() == other.store().balance_items()
        &&& self.store().supply_items() == other.store().supply_items()
        &&& forall|o: Option<Seq<u8>>| #[trigger] self.store().aggregate(o) == other.store().aggregate(o)
        &&& forall|o: Option<Seq<u8>>| #[trigger] self.store().listed(o) == other.store().listed(o)
        &&& self.approval_items() == other.approval_items()
    }

    /// A working copy of the stores, on which an operation is carried out
    /// before it is known to stand.
    fn scratch(&self) -> (r: AFT37<B, NoHooks>)
        requires
            self.wf(),
        ensures
            r.wf(),
            self.mirrors(r),
            forall|o: Seq<u8>, i: IdView| #[trigger] r.bal(o, i) == self.bal(o, i),
            forall|i: IdView| #[trigger] r.supply(i) == self.supply(i),
            forall|o: Seq<u8>, op: Seq<u8>, i: Option<IdView>| #[trigger]
                r.approval(o, op, i) == self.approval(o, op, i),
    {
        AFT37 { balances: self.balances.duplicate(), approvals: self.approvals.duplicate(), hooks: NoHooks }
    }

    /// Takes over the stores of a working copy.
    fn commit(&mut self, next: AFT37<B, NoHooks>)
        requires
            next.wf(),
        ensures
            final(self).wf(),
            final(self).policy() == old(self).policy(),
            next.mirrors(*final(self)),
            forall|o: Seq<u8>, i: IdView| #[trigger] final(self).bal(o, i) == next.bal(o, i),
            forall|i: IdView| #[trigger] final(self).supply(i) == next.supply(i),
            forall|o: Seq<u8>, op: Seq<u8>, i: Option<IdView>| #[trigger]
                final(self).approval(o, op, i) == next.approval(o, op, i),
    {
        self.balances = next.balances;
        self.approvals = next.approvals;
    }

    /// Whether `operator` may move `value` of `from`'s `id`: it is `from`
    /// itself, or its allowance covers `value`.
    pub open spec fn may_move(&self, operator: Seq<u8>, from: Seq<u8>, id: IdView, value: nat) -> bool {
        from == operator || self.allowance_of(from, operator, Some(id)) >= value
    }

    /// `next`'s approvals are `self`'s after `operator` spent `value` of
    /// `owner`'s `id`.
    pub open spec fn spent_into(&self, next: Self, owner: Seq<u8>, operator: Seq<u8>, id: IdView, value: nat) -> bool {
        forall|o: Seq<u8>, op: Seq<u8>, i: Option<IdView>| #[trigger]
            next.approval(o, op, i) == if owner != operator && self.allowance_of(owner, operator, Some(id))
                != MAX_BALANCE && o == owner && op == operator && i == Some(id) {
                Some((self.allowance_of(owner, operator, Some(id)) - value) as u128)
            } else {
                self.approval(o, op, i)
            }
    }

    /// Moves `value` of `id` from `from` to `to` on behalf of `operator`.
    ///
    /// Fails with `NotAllowed` when `operator` is not `from` and its
    /// allowance is below `value`; then with the policy's error when the
    /// policy declines before the move; then with `InsufficientBalance` when
    /// `from` holds less than `value`; then with the policy's error when it
    /// declines after the move. In all these cases nothing changes.
    /// Otherwise the allowance is spent, the quantities move and the total
    /// supply stays.
    pub fn transfer_from(
        &mut self,
        operator: &AccountId,
        from: &AccountId,
        to: &AccountId,
        id: &Id,
        value: Balance,
    ) -> (r: Result<(), AFT37Error>)
        requires
            old(self).wf(),
        ensures
            final(self).wf(),
            final(self).policy() == old(self).policy(),
            !old(self).may_move(operator@, from@, id@, value as nat) ==> r == Err::<(), AFT37Error>(AFT37Error::NotAllowed) && *final(self) == *old(self),
            old(self).may_move(operator@, from@, id@, value as nat) && old(self).policy().verdict(false, Some(from@), Some(to@), seq![(id@, value)]) is Err ==> r == old(self).policy().verdict(false, Some(from@), Some(to@), seq![(id@, value)]) && *final(self) == *old(self),
            old(self).may_move(operator@, from@, id@, value as nat) && old(self).policy().verdict(false, Some(from@), Some(to@), seq![(id@, value)]) is Ok && old(self).bal(from@, id@) < value ==> r == Err::<(), AFT37Error>(
                AFT37Error::InsufficientBalance,
            ) && *final(self) == *old(self),
            old(self).may_move(operator@, from@, id@, value as nat) && old(self).policy().verdict(false, Some(from@), Some(to@), seq![(id@, value)]) is Ok && old(self).bal(from@, id@) >= value && old(self).policy().verdict(true, Some(from@), Some(to@), seq![(id@, value)]) is Err ==> r == old(self).policy().verdict(true, Some(from@), Some(to@), seq![(id@, value)])
                && *final(self) == *old(self),
            old(self).may_move(operator@, from@, id@, value as nat) && old(self).policy().verdict(false, Some(from@), Some(to@), seq![(id@, value)]) is Ok && old(self).bal(from@, id@) >= value && old(self).policy().verdict(true, Some(from@), Some(to@), seq![(id@, value)]) is Ok ==> {
                &&& r is Ok
                &&& forall|o: Seq<u8>, i: IdView| #[trigger]
                    final(self).bal(o, i) == old(self).bal(o, i) - part(o, i, from@, id@, value as nat)
                        + part(o, i, to@, id@, value as nat)
                &&& forall|i: IdView| #[trigger] final(self).supply(i) == old(self).supply(i)
                &&& old(self).spent_into(*final(self), from@, operator@, id@, value as nat)
                &&& forall|o: Option<Seq<u8>>| #[trigger]
                    final(self).listed(o) == old(self).moved_listed(o, from@, to@, seq![(id@, value)])
            },
    {
        if !from.same_key(operator) && self.allowance(from, operator, &Some(id.key_clone())) < value {
            return Err(AFT37Error::NotAllowed);
        }
        let mut ids_amounts: Vec<(Id, Balance)> = Vec::new();
        ids_amounts.push((id.key_clone(), value));
        assert(pairs_view(ids_amounts@) =~= seq![(id@, value)]);
        let from_opt = Some(from.key_clone());
        let to_opt = Some(to.key_clone());
        match self.hooks._before_token_transfer(&from_opt, &to_opt, &ids_amounts) {
            Ok(()) => {},
            Err(e) => {
                return Err(e);
            },
        }
        if self.balances._balance_of(from, &Some(id.key_clone())) < value {
            return Err(AFT37Error::InsufficientBalance);
        }
        let mut next = self.scratch();
        let ghost start = next;
        proof {
            let sq = seq![(id@, value)];
            assert(self.bal_of(from@) =~= next.bal_of(from@));
            assert(self.bal_less(to@, from@, sq) =~= next.bal_less(to@, from@, sq));
        }
        let spent = next._decrease_allowance(from, operator, id, value);
        assert(spent is Ok);
        let ghost mid = next;
        next._transfer_token(from, to, id, value);
        proof {
            assert forall|o: Seq<u8>, op: Seq<u8>, i: Option<IdView>| #[trigger]
                next.approval(o, op, i) == mid.approval(o, op, i) by {}
        }
        let ghost done = next;
        match self.hooks._after_token_transfer(&from_opt, &to_opt, &ids_amounts) {
            Ok(()) => {
                self.commit(next);
                assert forall|o: Option<Seq<u8>>| #[trigger]
                    self.listed(o) == old(self).moved_listed(o, from@, to@, seq![(id@, value)]) by {
                    let sq = seq![(id@, value)];
                    assert(self.listed(o) == done.listed(o));
                    assert(done.listed(o) == mid.moved_listed(o, from@, to@, sq));
                    assert(mid.bal_of(from@) =~= old(self).bal_of(from@));
                    assert(mid.bal_less(to@, from@, sq) =~= old(self).bal_less(to@, from@, sq));
                    assert(mid.listed(o) == start.listed(o));
                    assert(mid.listed(Some(from@)) == old(self).listed(Some(from@)));
                    assert(mid.listed(Some(to@)) == old(self).listed(Some(to@)));
                    assert(start.listed(o) == old(self).listed(o));
                    assert(start.listed(Some(from@)) == old(self).listed(Some(from@)));
                    assert(start.listed(Some(to@)) == old(self).listed(Some(to@)));
                }
                Ok(())
            },
            Err(e) => Err(e),
        }
    }

    /// Moves `value` of `id` from `from` to `to`; the total supply stays.
    fn _transfer_token(&mut self, from: &AccountId, to: &AccountId, id: &Id, value: Balance)
        requires
            old(self).wf(),
            old(self).bal(from@, id@) >= value,
        ensures
            final(self).wf(),
            final(self).policy() == old(self).policy(),
            final(self).approvals == old(self).approvals,
            forall|o: Seq<u8>, i: IdView| #[trigger]
                final(self).bal(o, i) == old(self).bal(o, i) - part(o, i, from@, id@, value as nat)
                    + part(o, i, to@, id@, value as nat),
            forall|i: IdView| #[trigger] final(self).supply(i) == old(self).supply(i),
            forall|o: Option<Seq<u8>>| #[trigger]
                final(self).listed(o) == old(self).moved_listed(o, from@, to@, seq![(id@, value)]),
    {
        let ghost s0 = self.balances.balance_items();
        let ghost start = *self;
        proof {
            lemma_amount_le_total(s0, from@, id@);
            if from@ != to@ {
                lemma_two_le_total(s0, from@, to@, id@);
            }
            assert(supply_in(self.balances.supply_items(), id@) == total_held(s0, id@));
            assert(supply_in(self.balances.supply_items(), id@) <= MAX_BALANCE);
        }
        let d = self.balances._decrease_balance(from, id, value, false);
        assert(d is Ok);
        assert(amount_in(self.balances.balance_items(), to@, id@) + value <= MAX_BALANCE);
        let ghost mid = *self;
        let i = self.balances._increase_balance(to, id, value, false);
        assert forall|k: IdView| #[trigger]
            supply_in(self.balances.supply_items(), k) == total_held(self.balances.balance_items(), k) by {
        }
        proof {
            let sq = seq![(id@, value)];
            reveal_with_fuel(listed_sum, 2);
            reveal_with_fuel(shrunk, 2);
            reveal_with_fuel(grown, 2);
            assert(sq.drop_last() =~= Seq::<(IdView, u128)>::empty());
            assert(listed_sum(sq, id@) == value);
            assert(mid.bal(to@, id@) == start.bal_less(to@, from@, sq)(id@));
            assert forall|o: Option<Seq<u8>>| #[trigger]
                self.listed(o) == start.moved_listed(o, from@, to@, sq) by {
                assert(mid.listed(o) == if o == Some(from@) {
                    shrunk(start.listed(o), start.bal_of(from@), sq)
                } else {
                    start.listed(o)
                });
            }
        }
    }

    /// `next` holds the same approvals as `self`.
    pub open spec fn keeps_approvals(&self, next: Self) -> bool {
        forall|o: Seq<u8>, op: Seq<u8>, i: Option<IdView>| #[trigger]
            next.approval(o, op, i) == self.approval(o, op, i)
    }

    /// Creates the listed amounts of each asset for `to`.
    ///
    /// An empty list succeeds at once, without consulting the policy. Else,
    /// when the policy declines before or after the change, its error is
    /// returned and nothing changes; otherwise `to`'s quantities and the
    /// supplies grow by the amounts listed for each asset (an asset listed
    /// twice counts twice). Minting past the largest amount is outside the
    /// contract.
    pub fn _mint_to(&mut self, to: &AccountId, ids_amounts: Vec<(Id, Balance)>) -> (r: Result<(), AFT37Error>)
        requires
            old(self).wf(),
            forall|i: IdView| #[trigger]
                old(self).supply(i) + listed_sum(pairs_view(ids_amounts@), i) <= MAX_BALANCE,
        ensures
            final(self).wf(),
            final(self).policy() == old(self).policy(),
            ids_amounts@.len() == 0 ==> r is Ok && *final(self) == *old(self),
            ids_amounts@.len() > 0 && old(self).policy().verdict(false, None, Some(to@), pairs_view(ids_amounts@)) is Err ==> r == old(self).policy().verdict(false, None, Some(to@), pairs_view(ids_amounts@)) && *final(self) == *old(self),
            ids_amounts@.len() > 0 && old(self).policy().verdict(false, None, Some(to@), pairs_view(ids_amounts@)) is Ok && old(self).policy().verdict(true, None, Some(to@), pairs_view(ids_amounts@)) is Err ==> r == old(self).policy().verdict(true, None, Some(to@), pairs_view(ids_amounts@)) && *final(self) == *old(self),
            ids_amounts@.len() > 0 && old(self).policy().verdict(false, None, Some(to@), pairs_view(ids_amounts@)) is Ok && old(self).policy().verdict(true, None, Some(to@), pairs_view(ids_amounts@)) is Ok ==> {
                &&& r is Ok
                &&& forall|o: Seq<u8>, i: IdView| #[trigger]
                    final(self).bal(o, i) == old(self).bal(o, i) + if o == to@ {
                        listed_sum(pairs_view(ids_amounts@), i)
                    } else {
                        0
                    }
                &&& forall|i: IdView| #[trigger]
                    final(self).supply(i) == old(self).supply(i) + listed_sum(
                        pairs_view(ids_amounts@),
                        i,
                    )
                &&& old(self).keeps_approvals(*final(self))
                &&& forall|o: Option<Seq<u8>>| #[trigger]
                    final(self).listed(o) == if o == Some(to@) {
                        grown(old(self).listed(o), old(self).bal_of(to@), pairs_view(ids_amounts@))
                    } else if o is None {
                        grown(old(self).listed(o), old(self).supply_of(), pairs_view(ids_amounts@))
                    } else {
                        old(self).listed(o)
                    }
            },
    {
        if ids_amounts.len() == 0 {
            return Ok(());
        }
        let to_opt = Some(to.key_clone());
        match self.hooks._before_token_transfer(&None, &to_opt, &ids_amounts) {
            Ok(()) => {},
            Err(e) => {
                return Err(e);
            },
        }
        let mut next = self.scratch();
        let ghost start = next;
        proof {
            assert(self.bal_of(to@) =~= next.bal_of(to@));
            assert(self.supply_of() =~= next.supply_of());
        }
        next.mint_items(to, &ids_amounts);
        let ghost done = next;
        match self.hooks._after_token_transfer(&None, &to_opt, &ids_amounts) {
            Ok(()) => {
                self.commit(next);
                assert forall|o: Option<Seq<u8>>| #[trigger]
                    self.listed(o) == if o == Some(to@) {
                        grown(old(self).listed(o), old(self).bal_of(to@), pairs_view(ids_amounts@))
                    } else if o is None {
                        grown(old(self).listed(o), old(self).supply_of(), pairs_view(ids_amounts@))
                    } else {
                        old(self).listed(o)
                    } by {
                    assert(self.listed(o) == done.listed(o));
                    assert(start.listed(o) == old(self).listed(o));
                }
                Ok(())
            },
            Err(e) => Err(e),
        }
    }

    /// Adds the listed amounts to `to`'s quantities and to the supplies.
    fn mint_items(&mut self, to: &AccountId, ids_amounts: &Vec<(Id, Balance)>)
        requires
            old(self).wf(),
            forall|i: IdView| #[trigger]
                old(self).supply(i) + listed_sum(pairs_view(ids_amounts@), i) <= MAX_BALANCE,
        ensures
            final(self).wf(),
            final(self).policy() == old(self).policy(),
            forall|o: Seq<u8>, i: IdView| #[trigger]
                final(self).bal(o, i) == old(self).bal(o, i) + if o == to@ {
                    listed_sum(pairs_view(ids_amounts@), i)
                } else {
                    0
                },
            forall|i: IdView| #[trigger]
                final(self).supply(i) == old(self).supply(i) + listed_sum(pairs_view(ids_amounts@), i),
            old(self).keeps_approvals(*final(self)),
            forall|o: Option<Seq<u8>>| #[trigger]
                final(self).listed(o) == if o == Some(to@) {
                    grown(old(self).listed(o), old(self).bal_of(to@), pairs_view(ids_amounts@))
                } else if o is None {
                    grown(old(self).listed(o), old(self).supply_of(), pairs_view(ids_amounts@))
                } else {
                    old(self).listed(o)
                },
    {
        let ghost s = pairs_view(ids_amounts@);
        let ghost start = *self;
        let mut k: usize = 0;
        while k < ids_amounts.len()
            invariant
                0 <= k <= ids_amounts@.len(),
                s == pairs_view(ids_amounts@),
                start.wf(),
                forall|i: IdView| #[trigger] start.supply(i) + listed_sum(s, i) <= MAX_BALANCE,
                forall|o: Option<Seq<u8>>| #[trigger]
                    self.listed(o) == if o == Some(to@) {
                        grown(start.listed(o), start.bal_of(to@), s.take(k as int))
                    } else if o is None {
                        grown(start.listed(o), start.supply_of(), s.take(k as int))
                    } else {
                        start.listed(o)
                    },
                self.wf(),
                self.hooks == start.hooks,
                self.approvals == start.approvals,
                forall|o: Seq<u8>, i: IdView| #[trigger]
                    self.bal(o, i) == start.bal(o, i) + if o == to@ {
                        listed_sum(s.take(k as int), i)
                    } else {
                        0
                    },
                forall|i: IdView| #[trigger]
                    self.supply(i) == start.supply(i) + listed_sum(s.take(k as int), i),
            decreases ids_amounts@.len() - k,
        {
            let ghost id = ids_amounts@[k as int].0@;
            let amount = ids_amounts[k].1;
            proof {
                assert(s[k as int] == (id, amount));
                lemma_listed_prefix(s, k as int, id);
                lemma_listed_mono(s, k as int + 1, id);
                lemma_amount_le_total(self.balances.balance_items(), to@, id);
                assert(supply_in(self.balances.supply_items(), id) == total_held(
                    self.balances.balance_items(),
                    id,
                ));
                assert(self.supply(id) == start.supply(id) + listed_sum(s.take(k as int), id));
                assert(start.supply(id) + listed_sum(s, id) <= MAX_BALANCE);
            }
            let ghost before = *self;
            let _ = self.balances._increase_balance(to, &ids_amounts[k].0, amount, true);
            proof {
                assert forall|o: Seq<u8>, i: IdView| #[trigger]
                    self.bal(o, i) == start.bal(o, i) + if o == to@ {
                        listed_sum(s.take(k as int + 1), i)
                    } else {
                        0
                    } by {
                    assert(before.bal(o, i) == start.bal(o, i) + if o == to@ {
                        listed_sum(s.take(k as int), i)
                    } else {
                        0
                    });
                    lemma_listed_prefix(s, k as int, i);
                }
                assert forall|i: IdView| #[trigger]
                    self.supply(i) == start.supply(i) + listed_sum(s.take(k as int + 1), i) by {
                    assert(before.supply(i) == start.supply(i) + listed_sum(s.take(k as int), i));
                    lemma_listed_prefix(s, k as int, i);
                }
                assert forall|i: IdView| #[trigger]
                    supply_in(self.balances.supply_items(), i) == total_held(
                        self.balances.balance_items(),
                        i,
                    ) by {
                    assert(supply_in(before.balances.supply_items(), i) == total_held(
                        before.balances.balance_items(),
                        i,
                    ));
                }
            }
            proof {
                let tk = s.take(k as int);
                let tk1 = s.take(k as int + 1);
                assert(tk1.drop_last() =~= tk);
                assert(tk1.last() == s[k as int]);
                assert(before.bal(to@, id) == start.bal(to@, id) + listed_sum(tk, id));
                assert(before.supply(id) == start.supply(id) + listed_sum(tk, id));
                assert forall|o: Option<Seq<u8>>| #[trigger]
                    self.listed(o) == if o == Some(to@) {
                        grown(start.listed(o), start.bal_of(to@), tk1)
                    } else if o is None {
                        grown(start.listed(o), start.supply_of(), tk1)
                    } else {
                        start.listed(o)
                    } by {
                    assert(before.listed(o) == if o == Some(to@) {
                        grown(start.listed(o), start.bal_of(to@), tk)
                    } else if o is None {
                        grown(start.listed(o), start.supply_of(), tk)
                    } else {
                        start.listed(o)
                    });
                }
            }
            k = k + 1;
        }
        proof {
            assert(s.take(k as int) =~= s);
        }
    }

    /// Whether `owner` holds at least the amount listed for every asset.
    fn holds_listed(&self, owner: &AccountId, ids_amounts: &Vec<(Id, Balance)>) -> (r: bool)
        requires
            self.wf(),
        ensures
            r == forall|i: IdView| #[trigger]
                listed_sum(pairs_view(ids_amounts@), i) <= self.bal(owner@, i),
    {
        let ghost s = pairs_view(ids_amounts@);
        let mut k: usize = 0;
        while k < ids_amounts.len()
            invariant
                0 <= k <= ids_amounts@.len(),
                self.wf(),
                s == pairs_view(ids_amounts@),
                forall|j: int| 0 <= j < k ==> listed_sum(s, #[trigger] s[j].0) <= self.bal(owner@, s[j].0),
            decreases ids_amounts@.len() - k,
        {
            let id = &ids_amounts[k].0;
            proof {
                assert(s[k as int] == (id@, ids_amounts@[k as int].1));
            }
            let held = self.balances._balance_of(owner, &Some(id.key_clone()));
            if !listed_within(ids_amounts, id, held) {
                return false;
            }
            k = k + 1;
        }
        assert forall|i: IdView| #[trigger] listed_sum(s, i) <= self.bal(owner@, i) by {
            if lists(s, i) {
                let j = choose|j: int| 0 <= j < s.len() && #[trigger] s[j].0 == i;
            } else {
                lemma_listed_zero(s, i);
            }
        }
        true
    }

    /// Destroys the listed amounts of each asset held by `from`.
    ///
    /// The policy is consulted first, also for an empty list: when it
    /// declines, its error is returned and nothing changes. An empty list
    /// then succeeds with no change. When `from` holds less of some asset
    /// than the amounts listed for it, the result is `InsufficientBalance`;
    /// when the policy declines after the change, its error. In both cases
    /// nothing changes. Otherwise `from`'s quantities and the supplies shrink
    /// by the amounts listed.
    pub fn _burn_from(&mut self, from: &AccountId, ids_amounts: Vec<(Id, Balance)>) -> (r: Result<(), AFT37Error>)
        requires
            old(self).wf(),
        ensures
            final(self).wf(),
            final(self).policy() == old(self).policy(),
            old(self).policy().verdict(false, Some(from@), None, pairs_view(ids_amounts@)) is Err ==> r == old(self).policy().verdict(false, Some(from@), None, pairs_view(ids_amounts@)) && *final(self) == *old(self),
            old(self).policy().verdict(false, Some(from@), None, pairs_view(ids_amounts@)) is Ok && ids_amounts@.len() == 0 ==> r is Ok && *final(self) == *old(self),
            old(self).policy().verdict(false, Some(from@), None, pairs_view(ids_amounts@)) is Ok && ids_amounts@.len() > 0 && !(forall|i: IdView| #[trigger] listed_sum(pairs_view(ids_amounts@), i) <= old(self).bal(from@, i)) ==> r == Err::<(), AFT37Error>(
                AFT37Error::InsufficientBalance,
            ) && *final(self) == *old(self),
            old(self).policy().verdict(false, Some(from@), None, pairs_view(ids_amounts@)) is Ok && ids_amounts@.len() > 0 && (forall|i: IdView| #[trigger] listed_sum(pairs_view(ids_amounts@), i) <= old(self).bal(from@, i)) && old(self).policy().verdict(true, Some(from@), None, pairs_view(ids_amounts@)) is Err ==> r == old(self).policy().verdict(true, Some(from@), None, pairs_view(ids_amounts@)) && *final(self)
                == *old(self),
            old(self).policy().verdict(false, Some(from@), None, pairs_view(ids_amounts@)) is Ok && ids_amounts@.len() > 0 && (forall|i: IdView| #[trigger] listed_sum(pairs_view(ids_amounts@), i) <= old(self).bal(from@, i)) && old(self).policy().verdict(true, Some(from@), None, pairs_view(ids_amounts@)) is Ok ==> {
                &&& r is Ok
                &&& forall|o: Seq<u8>, i: IdView| #[trigger]
                    final(self).bal(o, i) == old(self).bal(o, i) - if o == from@ {
                        listed_sum(pairs_view(ids_amounts@), i)
                    } else {
                        0
                    }
                &&& forall|i: IdView| #[trigger]
                    final(self).supply(i) == old(self).supply(i) - listed_sum(
                        pairs_view(ids_amounts@),
                        i,
                    )
                &&& old(self).keeps_approvals(*final(self))
                &&& forall|o: Option<Seq<u8>>| #[trigger]
                    final(self).listed(o) == if o == Some(from@) {
                        shrunk(old(self).listed(o), old(self).bal_of(from@), pairs_view(ids_amounts@))
                    } else if o is None {
                        shrunk(old(self).listed(o), old(self).supply_of(), pairs_view(ids_amounts@))
                    } else {
                        old(self).listed(o)
                    }
            },
    {
        let from_opt = Some(from.key_clone());
        match self.hooks._before_token_transfer(&from_opt, &None, &ids_amounts) {
            Ok(()) => {},
            Err(e) => {
                return Err(e);
            },
        }
        if ids_amounts.len() == 0 {
            return Ok(());
        }
        if !self.holds_listed(from, &ids_amounts) {
            return Err(AFT37Error::InsufficientBalance);
        }
        let mut next = self.scratch();
        let ghost start = next;
        proof {
            assert(self.bal_of(from@) =~= next.bal_of(from@));
            assert(self.supply_of() =~= next.supply_of());
        }
        next.burn_items(from, &ids_amounts);
        let ghost done = next;
        match self.hooks._after_token_transfer(&from_opt, &None, &ids_amounts) {
            Ok(()) => {
                self.commit(next);
                assert forall|o: Option<Seq<u8>>| #[trigger]
                    self.listed(o) == if o == Some(from@) {
                        shrunk(old(self).listed(o), old(self).bal_of(from@), pairs_view(ids_amounts@))
                    } else if o is None {
                        shrunk(old(self).listed(o), old(self).supply_of(), pairs_view(ids_amounts@))
                    } else {
                        old(self).listed(o)
                    } by {
                    assert(self.listed(o) == done.listed(o));
                    assert(start.listed(o) == old(self).listed(o));
                }
                Ok(())
            },
            Err(e) => Err(e),
        }
    }

    /// Takes the listed amounts from `from`'s quantities and the supplies.
    fn burn_items(&mut self, from: &AccountId, ids_amounts: &Vec<(Id, Balance)>)
        requires
            old(self).wf(),
            forall|i: IdView| #[trigger] listed_sum(pairs_view(ids_amounts@), i) <= old(self).bal(from@, i),
        ensures
            final(self).wf(),
            final(self).policy() == old(self).policy(),
            forall|o: Seq<u8>, i: IdView| #[trigger]
                final(self).bal(o, i) == old(self).bal(o, i) - if o == from@ {
                    listed_sum(pairs_view(ids_amounts@), i)
                } else {
                    0
                },
            forall|i: IdView| #[trigger]
                final(self).supply(i) == old(self).supply(i) - listed_sum(pairs_view(ids_amounts@), i),
            old(self).keeps_approvals(*final(self)),
            forall|o: Option<Seq<u8>>| #[trigger]
                final(self).listed(o) == if o == Some(from@) {
                    shrunk(old(self).listed(o), old(self).bal_of(from@), pairs_view(ids_amounts@))
                } else if o is None {
                    shrunk(old(self).listed(o), old(self).supply_of(), pairs_view(ids_amounts@))
                } else {
                    old(self).listed(o)
                },
    {
        let ghost s = pairs_view(ids_amounts@);
        let ghost start = *self;
        let mut k: usize = 0;
        while k < ids_amounts.len()
            invariant
                0 <= k <= ids_amounts@.len(),
                s == pairs_view(ids_amounts@),
                forall|o: Option<Seq<u8>>| #[trigger]
                    self.listed(o) == if o == Some(from@) {
                        shrunk(start.listed(o), start.bal_of(from@), s.take(k as int))
                    } else if o is None {
                        shrunk(start.listed(o), start.supply_of(), s.take(k as int))
                    } else {
                        start.listed(o)
                    },
                start.wf(),
                forall|i: IdView| #[trigger] listed_sum(s, i) <= start.bal(from@, i),
                self.wf(),
                self.hooks == start.hooks,
                self.approvals == start.approvals,
                forall|o: Seq<u8>, i: IdView| #[trigger]
                    self.bal(o, i) == start.bal(o, i) - if o == from@ {
                        listed_sum(s.take(k as int), i)
                    } else {
                        0
                    },
                forall|i: IdView| #[trigger]
                    self.supply(i) == start.supply(i) - listed_sum(s.take(k as int), i),
            decreases ids_amounts@.len() - k,
        {
            let ghost id = ids_amounts@[k as int].0@;
            let amount = ids_amounts[k].1;
            proof {
                assert(s[k as int] == (id, amount));
                lemma_listed_prefix(s, k as int, id);
                lemma_listed_mono(s, k as int + 1, id);
                lemma_amount_le_total(self.balances.balance_items(), from@, id);
                assert(supply_in(self.balances.supply_items(), id) == total_held(
                    self.balances.balance_items(),
                    id,
                ));
                assert(self.bal(from@, id) == start.bal(from@, id) - listed_sum(s.take(k as int), id));
                assert(listed_sum(s, id) <= start.bal(from@, id));
            }
            let ghost before = *self;
            let d = self.balances._decrease_balance(from, &ids_amounts[k].0, amount, true);
            proof {
                assert(d is Ok);
                assert forall|o: Seq<u8>, i: IdView| #[trigger]
                    self.bal(o, i) == start.bal(o, i) - if o == from@ {
                        listed_sum(s.take(k as int + 1), i)
                    } else {
                        0
                    } by {
                    assert(before.bal(o, i) == start.bal(o, i) - if o == from@ {
                        listed_sum(s.take(k as int), i)
                    } else {
                        0
                    });
                    lemma_listed_prefix(s, k as int, i);
                    lemma_listed_mono(s, k as int + 1, i);
                    assert(listed_sum(s, i) <= start.bal(from@, i));
                }
                assert forall|i: IdView| #[trigger]
                    self.supply(i) == start.supply(i) - listed_sum(s.take(k as int + 1), i) by {
                    assert(before.supply(i) == start.supply(i) - listed_sum(s.take(k as int), i));
                    lemma_listed_prefix(s, k as int, i);
                    lemma_listed_mono(s, k as int + 1, i);
                    lemma_amount_le_total(start.balances.balance_items(), from@, i);
                    assert(supply_in(start.balances.supply_items(), i) == total_held(
                        start.balances.balance_items(),
                        i,
                    ));
                    assert(listed_sum(s, i) <= start.bal(from@, i));
                }
                assert forall|i: IdView| #[trigger]
                    supply_in(self.balances.supply_items(), i) == total_held(
                        self.balances.balance_items(),
                        i,
                    ) by {
                    assert(supply_in(before.balances.supply_items(), i) == total_held(
                        before.balances.balance_items(),
                        i,
                    ));
                }
            }
            proof {
                let tk = s.take(k as int);
                let tk1 = s.take(k as int + 1);
                assert(tk1.drop_last() =~= tk);
                assert(tk1.last() == s[k as int]);
                assert(before.bal(from@, id) == start.bal(from@, id) - listed_sum(tk, id));
                assert(before.supply(id) == start.supply(id) - listed_sum(tk, id));
                assert forall|o: Option<Seq<u8>>| #[trigger]
                    self.listed(o) == if o == Some(from@) {
                        shrunk(start.listed(o), start.bal_of(from@), tk1)
                    } else if o is None {
                        shrunk(start.listed(o), start.supply_of(), tk1)
                    } else {
                        start.listed(o)
                    } by {
                    assert(before.listed(o) == if o == Some(from@) {
                        shrunk(start.listed(o), start.bal_of(from@), tk)
                    } else if o is None {
                        shrunk(start.listed(o), start.supply_of(), tk)
                    } else {
                        start.listed(o)
                    });
                }
            }
            k = k + 1;
        }
        proof {
            assert(s.take(k as int) =~= s);
        }
    }

    /// Whether `operator` may move each listed pair of `from`'s on its own.
    pub open spec fn may_move_all(&self, operator: Seq<u8>, from: Seq<u8>, s: Seq<(IdView, u128)>) -> bool {
        from == operator || forall|k: int|
            0 <= k < s.len() ==> self.allowance_of(from, operator, Some(#[trigger] s[k].0))
                >= s[k].1
    }

    /// Whether `from` holds, and `operator` may spend, the total listed for
    /// each asset.
    pub open spec fn covers_batch(&self, operator: Seq<u8>, from: Seq<u8>, s: Seq<(IdView, u128)>) -> bool {
        forall|i: IdView| #[trigger]
            listed_sum(s, i) <= self.bal(from, i) && (from != operator && self.allowance_of(
                from,
                operator,
                Some(i),
            ) != MAX_BALANCE ==> listed_sum(s, i) <= self.allowance_of(from, operator, Some(i)))
    }

    /// `next`'s approvals are `self`'s after `operator` spent, pair by pair,
    /// the listed amounts of `owner`'s assets.
    pub open spec fn spent_all_into(
        &self,
        next: Self,
        owner: Seq<u8>,
        operator: Seq<u8>,
        s: Seq<(IdView, u128)>,
    ) -> bool {
        forall|o: Seq<u8>, op: Seq<u8>, i: Option<IdView>| #[trigger]
            next.approval(o, op, i) == if owner != operator && o == owner && op == operator
                && i is Some && lists(s, i->0) && self.allowance_of(owner, operator, i)
                != MAX_BALANCE {
                Some((self.allowance_of(owner, operator, i) - listed_sum(s, i->0)) as u128)
            } else {
                self.approval(o, op, i)
            }
    }

    /// Whether, for each listed asset whose allowance is not unlimited, the
    /// allowance covers the total listed for it.
    fn allowance_covers(&self, operator: &AccountId, from: &AccountId, ids_amounts: &Vec<(Id, Balance)>) -> (r: bool)
        requires
            self.wf(),
        ensures
            r == forall|i: IdView| #[trigger]
                self.allowance_of(from@, operator@, Some(i)) != MAX_BALANCE ==> listed_sum(
                    pairs_view(ids_amounts@),
                    i,
                ) <= self.allowance_of(from@, operator@, Some(i)),
    {
        let ghost s = pairs_view(ids_amounts@);
        let mut k: usize = 0;
        while k < ids_amounts.len()
            invariant
                0 <= k <= ids_amounts@.len(),
                self.wf(),
                s == pairs_view(ids_amounts@),
                forall|j: int|
                    0 <= j < k ==> self.allowance_of(from@, operator@, Some(#[trigger] s[j].0))
                        != MAX_BALANCE ==> listed_sum(s, s[j].0) <= self.allowance_of(
                        from@,
                        operator@,
                        Some(s[j].0),
                    ),
            decreases ids_amounts@.len() - k,
        {
            let id = &ids_amounts[k].0;
            proof {
                assert(s[k as int] == (id@, ids_amounts@[k as int].1));
            }
            let a = self.allowance(from, operator, &Some(id.key_clone()));
            if a != MAX_BALANCE && !listed_within(ids_amounts, id, a) {
                return false;
            }
            k = k + 1;
        }
        assert forall|i: IdView| #[trigger]
            self.allowance_of(from@, operator@, Some(i)) != MAX_BALANCE implies listed_sum(s, i)
                <= self.allowance_of(from@, operator@, Some(i)) by {
            if lists(s, i) {
                let j = choose|j: int| 0 <= j < s.len() && #[trigger] s[j].0 == i;
            } else {
                lemma_listed_zero(s, i);
            }
        }
        true
    }

    /// Moves the listed amounts of each asset from `from` to `to` on behalf
    /// of `operator`, all or nothing.
    ///
    /// Fails with `NotAllowed` when `operator` is not `from` and some pair
    /// exceeds its allowance; then with the policy's error when the policy
    /// declines before the move; then with `InsufficientBalance` when `from`
    /// holds less of some asset than the total listed for it, or a limited
    /// allowance is below that total; then with the policy's error when it
    /// declines after the move. In these cases nothing changes. Otherwise
    /// the allowances are spent, the quantities move (an asset listed twice
    /// moves twice) and the supplies stay.
    pub fn batch_transfer_from(
        &mut self,
        operator: &AccountId,
        from: &AccountId,
        to: &AccountId,
        ids_amounts: Vec<(Id, Balance)>,
    ) -> (r: Result<(), AFT37Error>)
        requires
            old(self).wf(),
        ensures
            final(self).wf(),
            final(self).policy() == old(self).policy(),
            !old(self).may_move_all(operator@, from@, pairs_view(ids_amounts@)) ==> r == Err::<(), AFT37Error>(AFT37Error::NotAllowed) && *final(self) == *old(self),
            old(self).may_move_all(operator@, from@, pairs_view(ids_amounts@)) && old(self).policy().verdict(false, Some(from@), Some(to@), pairs_view(ids_amounts@)) is Err ==> r == old(self).policy().verdict(false, Some(from@), Some(to@), pairs_view(ids_amounts@)) && *final(self) == *old(self),
            old(self).may_move_all(operator@, from@, pairs_view(ids_amounts@)) && old(self).policy().verdict(false, Some(from@), Some(to@), pairs_view(ids_amounts@)) is Ok && !old(self).covers_batch(operator@, from@, pairs_view(ids_amounts@)) ==> r == Err::<(), AFT37Error>(AFT37Error::InsufficientBalance)
                && *final(self) == *old(self),
            old(self).may_move_all(operator@, from@, pairs_view(ids_amounts@)) && old(self).policy().verdict(false, Some(from@), Some(to@), pairs_view(ids_amounts@)) is Ok && old(self).covers_batch(operator@, from@, pairs_view(ids_amounts@)) && old(self).policy().verdict(true, Some(from@), Some(to@), pairs_view(ids_amounts@)) is Err ==> r == old(self).policy().verdict(true, Some(from@), Some(to@), pairs_view(ids_amounts@)) && *final(self) == *old(self),
            old(self).may_move_all(operator@, from@, pairs_view(ids_amounts@)) && old(self).policy().verdict(false, Some(from@), Some(to@), pairs_view(ids_amounts@)) is Ok && old(self).covers_batch(operator@, from@, pairs_view(ids_amounts@)) && old(self).policy().verdict(true, Some(from@), Some(to@), pairs_view(ids_amounts@)) is Ok ==> {
                &&& r is Ok
                &&& forall|o: Seq<u8>, i: IdView| #[trigger]
                    final(self).bal(o, i) == old(self).bal(o, i) - (if o == from@ {
                        listed_sum(pairs_view(ids_amounts@), i)
                    } else {
                        0
                    }) + (if o == to@ {
                        listed_sum(pairs_view(ids_amounts@), i)
                    } else {
                        0
                    })
                &&& forall|i: IdView| #[trigger] final(self).supply(i) == old(self).supply(i)
                &&& old(self).spent_all_into(*final(self), from@, operator@, pairs_view(ids_amounts@))
                &&& forall|o: Option<Seq<u8>>| #[trigger]
                    final(self).listed(o) == old(self).moved_listed(o, from@, to@, pairs_view(ids_amounts@))
            },
    {
        let ghost s = pairs_view(ids_amounts@);
        let not_self = !from.same_key(operator);
        if not_self {
            let mut k: usize = 0;
            while k < ids_amounts.len()
                invariant
                    0 <= k <= ids_amounts@.len(),
                    self.wf(),
                    *self == *old(self),
                    from@ != operator@,
                    s == pairs_view(ids_amounts@),
                    forall|j: int|
                        0 <= j < k ==> self.allowance_of(from@, operator@, Some(#[trigger] s[j].0))
                            >= s[j].1,
                decreases ids_amounts@.len() - k,
            {
                proof {
                    assert(s[k as int] == (ids_amounts@[k as int].0@, ids_amounts@[k as int].1));
                }
                if self.allowance(from, operator, &Some(ids_amounts[k].0.key_clone()))
                    < ids_amounts[k].1 {
                    assert(self.allowance_of(from@, operator@, Some(s[k as int].0)) < s[k as int].1);
                    return Err(AFT37Error::NotAllowed);
                }
                k = k + 1;
            }
        }
        let from_opt = Some(from.key_clone());
        let to_opt = Some(to.key_clone());
        match self.hooks._before_token_transfer(&from_opt, &to_opt, &ids_amounts) {
            Ok(()) => {},
            Err(e) => {
                return Err(e);
            },
        }
        if !self.holds_listed(from, &ids_amounts) {
            return Err(AFT37Error::InsufficientBalance);
        }
        if not_self && !self.allowance_covers(operator, from, &ids_amounts) {
            return Err(AFT37Error::InsufficientBalance);
        }
        assert(self.covers_batch(operator@, from@, s));
        let mut next = self.scratch();
        assert forall|i: IdView| #[trigger]
            listed_sum(s, i) <= next.bal(from@, i) && (from@ != operator@ && next.allowance_of(
                from@,
                operator@,
                Some(i),
            ) != MAX_BALANCE ==> listed_sum(s, i) <= next.allowance_of(from@, operator@, Some(i))) by {
            assert(next.bal(from@, i) == self.bal(from@, i));
            assert(next.approval(from@, operator@, None) == self.approval(from@, operator@, None));
            assert(next.approval(from@, operator@, Some(i)) == self.approval(
                from@,
                operator@,
                Some(i),
            ));
        }
        let ghost start = next;
        proof {
            assert(self.bal_of(from@) =~= next.bal_of(from@));
            assert(self.bal_less(to@, from@, s) =~= next.bal_less(to@, from@, s));
        }
        next.move_items(operator, from, to, &ids_amounts);
        let ghost done = next;
        match self.hooks._after_token_transfer(&from_opt, &to_opt, &ids_amounts) {
            Ok(()) => {
                self.commit(next);
                assert forall|o: Option<Seq<u8>>| #[trigger]
                    self.listed(o) == old(self).moved_listed(o, from@, to@, s) by {
                    assert(self.listed(o) == done.listed(o));
                    assert(start.listed(o) == old(self).listed(o));
                    assert(start.listed(Some(from@)) == old(self).listed(Some(from@)));
                    assert(start.listed(Some(to@)) == old(self).listed(Some(to@)));
                }
                Ok(())
            },
            Err(e) => Err(e),
        }
    }

    /// Spends the allowances for, and moves, the listed amounts.
    fn move_items(&mut self, operator: &AccountId, from: &AccountId, to: &AccountId, ids_amounts: &Vec<(Id, Balance)>)
        requires
            old(self).wf(),
            old(self).covers_batch(operator@, from@, pairs_view(ids_amounts@)),
        ensures
            final(self).wf(),
            final(self).policy() == old(self).policy(),
            forall|o: Seq<u8>, i: IdView| #[trigger]
                final(self).bal(o, i) == old(self).bal(o, i) - (if o == from@ {
                    listed_sum(pairs_view(ids_amounts@), i)
                } else {
                    0
                }) + (if o == to@ {
                    listed_sum(pairs_view(ids_amounts@), i)
                } else {
                    0
                }),
            forall|i: IdView| #[trigger] final(self).supply(i) == old(self).supply(i),
            old(self).spent_all_into(*final(self), from@, operator@, pairs_view(ids_amounts@)),
            forall|o: Option<Seq<u8>>| #[trigger]
                final(self).listed(o) == old(self).moved_listed(o, from@, to@, pairs_view(ids_amounts@)),
    {
        let ghost s = pairs_view(ids_amounts@);
        let not_self = !from.same_key(operator);
        let ghost start = *self;
        let mut k: usize = 0;
        while k < ids_amounts.len()
            invariant
                0 <= k <= ids_amounts@.len(),
                s == pairs_view(ids_amounts@),
                start.wf(),
                start.covers_batch(operator@, from@, s),
                not_self == (from@ != operator@),
                self.wf(),
                self.hooks == start.hooks,
                self.balances == start.balances,
                forall|o: Seq<u8>, op: Seq<u8>, i: Option<IdView>| #[trigger]
                    self.approval(o, op, i) == if from@ != operator@ && o == from@ && op
                        == operator@ && i is Some && lists(s.take(k as int), i->0)
                        && start.allowance_of(from@, operator@, i) != MAX_BALANCE {
                        Some(
                            (start.allowance_of(from@, operator@, i) - listed_sum(
                                s.take(k as int),
                                i->0,
                            )) as u128,
                        )
                    } else {
                        start.approval(o, op, i)
                    },
            decreases ids_amounts@.len() - k,
        {
            let ghost id = ids_amounts@[k as int].0@;
            let amount = ids_amounts[k].1;
            proof {
                assert(s[k as int] == (id, amount));
                lemma_listed_prefix(s, k as int, id);
                lemma_listed_mono(s, k as int + 1, id);
                assert(listed_sum(s, id) <= start.bal(from@, id));
                assert(self.approval(from@, operator@, None) == start.approval(
                    from@,
                    operator@,
                    None,
                ));
                assert(self.approval(from@, operator@, Some(id)) == if from@ != operator@ && lists(
                    s.take(k as int),
                    id,
                ) && start.allowance_of(from@, operator@, Some(id)) != MAX_BALANCE {
                    Some(
                        (start.allowance_of(from@, operator@, Some(id)) - listed_sum(
                            s.take(k as int),
                            id,
                        )) as u128,
                    )
                } else {
                    start.approval(from@, operator@, Some(id))
                });
                if !lists(s.take(k as int), id) {
                    lemma_listed_zero(s.take(k as int), id);
                }
            }
            let ghost before = *self;
            let spent = self._decrease_allowance(from, operator, &ids_amounts[k].0, amount);
            proof {
                assert(spent is Ok);
                assert forall|o: Seq<u8>, op: Seq<u8>, i: Option<IdView>| #[trigger]
                    self.approval(o, op, i) == if from@ != operator@ && o == from@ && op
                        == operator@ && i is Some && lists(s.take(k as int + 1), i->0)
                        && start.allowance_of(from@, operator@, i) != MAX_BALANCE {
                        Some(
                            (start.allowance_of(from@, operator@, i) - listed_sum(
                                s.take(k as int + 1),
                                i->0,
                            )) as u128,
                        )
                    } else {
                        start.approval(o, op, i)
                    } by {
                    assert(before.approval(o, op, i) == if from@ != operator@ && o == from@ && op
                        == operator@ && i is Some && lists(s.take(k as int), i->0)
                        && start.allowance_of(from@, operator@, i) != MAX_BALANCE {
                        Some(
                            (start.allowance_of(from@, operator@, i) - listed_sum(
                                s.take(k as int),
                                i->0,
                            )) as u128,
                        )
                    } else {
                        start.approval(o, op, i)
                    });
                    if let Some(x) = i {
                        lemma_lists_prefix(s, k as int, x);
                        lemma_listed_prefix(s, k as int, x);
                    }
                }
            }
            k = k + 1;
        }
        proof {
            assert(s.take(k as int) =~= s);
        }
        let ghost spent_state = *self;
        k = 0;
        while k < ids_amounts.len()
            invariant
                0 <= k <= ids_amounts@.len(),
                s == pairs_view(ids_amounts@),
                start.wf(),
                start.covers_batch(operator@, from@, s),
                self.balances.wf(),
                self.hooks == start.hooks,
                self.approvals == spent_state.approvals,
                spent_state.balances == start.balances,
                forall|o: Option<Seq<u8>>| #[trigger]
                    self.listed(o) == if o == Some(from@) {
                        shrunk(start.listed(o), start.bal_of(from@), s.take(k as int))
                    } else {
                        start.listed(o)
                    },
                forall|o: Seq<u8>, i: IdView| #[trigger]
                    self.bal(o, i) == start.bal(o, i) - if o == from@ {
                        listed_sum(s.take(k as int), i)
                    } else {
                        0
                    },
                forall|i: IdView| #[trigger] self.supply(i) == start.supply(i),
                forall|i: IdView| #[trigger]
                    self.held_sum(i) == start.held_sum(i) - listed_sum(s.take(k as int), i),
            decreases ids_amounts@.len() - k,
        {
            let ghost id = ids_amounts@[k as int].0@;
            let amount = ids_amounts[k].1;
            proof {
                assert(s[k as int] == (id, amount));
                lemma_listed_prefix(s, k as int, id);
                lemma_listed_mono(s, k as int + 1, id);
                assert(listed_sum(s, id) <= start.bal(from@, id));
                assert(self.bal(from@, id) == start.bal(from@, id) - listed_sum(s.take(k as int), id));
            }
            let ghost before = *self;
            let d = self.balances._decrease_balance(from, &ids_amounts[k].0, amount, false);
            proof {
                assert(d is Ok);
                assert forall|o: Seq<u8>, i: IdView| #[trigger]
                    self.bal(o, i) == start.bal(o, i) - if o == from@ {
                        listed_sum(s.take(k as int + 1), i)
                    } else {
                        0
                    } by {
                    assert(before.bal(o, i) == start.bal(o, i) - if o == from@ {
                        listed_sum(s.take(k as int), i)
                    } else {
                        0
                    });
                    lemma_listed_prefix(s, k as int, i);
                    lemma_listed_mono(s, k as int + 1, i);
                    assert(listed_sum(s, i) <= start.bal(from@, i));
                }
                assert forall|i: IdView| #[trigger]
                    self.held_sum(i) == start.held_sum(i) - listed_sum(s.take(k as int + 1), i) by {
                    assert(before.held_sum(i) == start.held_sum(i) - listed_sum(s.take(k as int), i));
                    lemma_listed_prefix(s, k as int, i);
                    lemma_amount_le_total(before.balances.balance_items(), from@, i);
                }
                assert forall|i: IdView| #[trigger] self.supply(i) == start.supply(i) by {
                    assert(before.supply(i) == start.supply(i));
                }
            }
            proof {
                let tk = s.take(k as int);
                let tk1 = s.take(k as int + 1);
                assert(tk1.drop_last() =~= tk);
                assert(tk1.last() == s[k as int]);
                assert(before.bal(from@, id) == start.bal(from@, id) - listed_sum(tk, id));
                assert forall|o: Option<Seq<u8>>| #[trigger]
                    self.listed(o) == if o == Some(from@) {
                        shrunk(start.listed(o), start.bal_of(from@), tk1)
                    } else {
                        start.listed(o)
                    } by {
                    assert(before.listed(o) == if o == Some(from@) {
                        shrunk(start.listed(o), start.bal_of(from@), tk)
                    } else {
                        start.listed(o)
                    });
                }
            }
            k = k + 1;
        }
        proof {
            assert(s.take(k as int) =~= s);
        }
        let ghost dec = *self;
        k = 0;
        while k < ids_amounts.len()
            invariant
                0 <= k <= ids_amounts@.len(),
                s == pairs_view(ids_amounts@),
                start.wf(),
                start.covers_batch(operator@, from@, s),
                self.balances.wf(),
                self.hooks == start.hooks,
                self.approvals == spent_state.approvals,
                forall|o: Seq<u8>, i: IdView| #[trigger]
                    self.bal(o, i) == start.bal(o, i) - (if o == from@ {
                        listed_sum(s, i)
                    } else {
                        0
                    }) + (if o == to@ {
                        listed_sum(s.take(k as int), i)
                    } else {
                        0
                    }),
                forall|o: Option<Seq<u8>>| #[trigger]
                    self.listed(o) == if o == Some(to@) {
                        grown(dec.listed(o), dec.bal_of(to@), s.take(k as int))
                    } else {
                        dec.listed(o)
                    },
                forall|i: IdView| #[trigger]
                    dec.bal(to@, i) == start.bal(to@, i) - (if to@ == from@ {
                        listed_sum(s, i)
                    } else {
                        0
                    }),
                forall|o: Option<Seq<u8>>| #[trigger]
                    dec.listed(o) == if o == Some(from@) {
                        shrunk(start.listed(o), start.bal_of(from@), s)
                    } else {
                        start.listed(o)
                    },
                forall|i: IdView| #[trigger] self.supply(i) == start.supply(i),
                forall|i: IdView| #[trigger]
                    self.held_sum(i) == start.held_sum(i) - listed_sum(s, i) + listed_sum(
                        s.take(k as int),
                        i,
                    ),
            decreases ids_amounts@.len() - k,
        {
            let ghost id = ids_amounts@[k as int].0@;
            let amount = ids_amounts[k].1;
            proof {
                assert(s[k as int] == (id, amount));
                lemma_listed_prefix(s, k as int, id);
                lemma_listed_mono(s, k as int + 1, id);
                lemma_amount_le_total(self.balances.balance_items(), to@, id);
                assert(self.held_sum(id) == start.held_sum(id) - listed_sum(s, id) + listed_sum(
                    s.take(k as int),
                    id,
                ));
                assert(start.supply(id) == start.held_sum(id));
                assert(start.supply(id) <= MAX_BALANCE) by {
                    assert(supply_in(start.balances.supply_items(), id) <= MAX_BALANCE);
                }
                assert(listed_sum(s, id) <= start.bal(from@, id));
                lemma_amount_le_total(start.balances.balance_items(), from@, id);
            }
            let ghost before = *self;
            let _ = self.balances._increase_balance(to, &ids_amounts[k].0, amount, false);
            proof {
                assert forall|o: Seq<u8>, i: IdView| #[trigger]
                    self.bal(o, i) == start.bal(o, i) - (if o == from@ {
                        listed_sum(s, i)
                    } else {
                        0
                    }) + (if o == to@ {
                        listed_sum(s.take(k as int + 1), i)
                    } else {
                        0
                    }) by {
                    assert(before.bal(o, i) == start.bal(o, i) - (if o == from@ {
                        listed_sum(s, i)
                    } else {
                        0
                    }) + (if o == to@ {
                        listed_sum(s.take(k as int), i)
                    } else {
                        0
                    }));
                    lemma_listed_prefix(s, k as int, i);
                }
                assert forall|i: IdView| #[trigger]
                    self.held_sum(i) == start.held_sum(i) - listed_sum(s, i) + listed_sum(
                        s.take(k as int + 1),
                        i,
                    ) by {
                    assert(before.held_sum(i) == start.held_sum(i) - listed_sum(s, i) + listed_sum(
                        s.take(k as int),
                        i,
                    ));
                    lemma_listed_prefix(s, k as int, i);
                }
                assert forall|i: IdView| #[trigger] self.supply(i) == start.supply(i) by {
                    assert(before.supply(i) == start.supply(i));
                }
            }
            proof {
                let tk = s.take(k as int);
                let tk1 = s.take(k as int + 1);
                assert(tk1.drop_last() =~= tk);
                assert(tk1.last() == s[k as int]);
                assert(before.bal(to@, id) == dec.bal(to@, id) + listed_sum(tk, id));
                assert forall|o: Option<Seq<u8>>| #[trigger]
                    self.listed(o) == if o == Some(to@) {
                        grown(dec.listed(o), dec.bal_of(to@), tk1)
                    } else {
                        dec.listed(o)
                    } by {
                    assert(before.listed(o) == if o == Some(to@) {
                        grown(dec.listed(o), dec.bal_of(to@), tk)
                    } else {
                        dec.listed(o)
                    });
                }
            }
            k = k + 1;
        }
        proof {
            assert(s.take(k as int) =~= s);
            assert forall|i: IdView| #[trigger]
                supply_in(self.balances.supply_items(), i) == total_held(
                    self.balances.balance_items(),
                    i,
                ) by {
                assert(self.held_sum(i) == start.held_sum(i));
                assert(self.supply(i) == start.supply(i));
                assert(start.supply(i) == start.held_sum(i));
            }
            assert(dec.bal_of(to@) =~= start.bal_less(to@, from@, s));
            assert forall|o: Option<Seq<u8>>| #[trigger]
                self.listed(o) == start.moved_listed(o, from@, to@, s) by {
                assert(dec.listed(o) == if o == Some(from@) {
                    shrunk(start.listed(o), start.bal_of(from@), s)
                } else {
                    start.listed(o)
                });
            }
            assert forall|o: Seq<u8>, op: Seq<u8>, i: Option<IdView>| #[trigger]
                self.approval(o, op, i) == spent_state.approval(o, op, i) by {}
        }
    }
}

impl<H: TransferHooks> AFT37<EnumerableBalances, H> {
    /// The asset at position `index` of the list of assets that `owner`
    /// holds, or `None` past its end. Positions change when an asset leaves
    /// the list: the last one moves into the freed slot.
    pub fn owners_token_by_index(&self, owner: &AccountId, index: u128) -> (r: Option<Id>)
        requires
            self.wf(),
        ensures
            match r {
                Some(v) => index < self.store().listed(Some(owner@)).len() && v@ == self.store().listed(
                    Some(owner@),
                )[index as int],
                None => index >= self.store().listed(Some(owner@)).len(),
            },
    {
        self.balances.asset_by_index(&Some(owner.key_clone()), index)
    }

    /// The asset at position `index` of the list of assets in existence, or
    /// `None` past its end.
    pub fn token_by_index(&self, index: u128) -> (r: Option<Id>)
        requires
            self.wf(),
        ensures
            match r {
                Some(v) => index < self.store().listed(None).len() && v@ == self.store().listed(
                    None,
                )[index as int],
                None => index >= self.store().listed(None).len(),
            },
    {
        self.balances.asset_by_index(&None, index)
    }
}

} // verus!
