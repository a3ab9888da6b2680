use vstd::prelude::*;

use crate::aft37::AFT37;
use crate::balances::{
    amount_in, existing_in, held_in, lemma_existing_bound, lemma_held_bound, supply_in, BalancesManager,
};
use crate::counting::CountingBalances;
use crate::enumerable::EnumerableBalances;
use crate::hooks::TransferHooks;
use crate::types::{IdView, MAX_BALANCE};

verus! {

/// Conservation: in every well-formed ledger the total supply of each asset
/// equals the sum, over all accounts, of the quantity of it they hold.
/// (Transfers leave supplies unchanged and mint and burn change them by the
/// amounts listed: see the contracts of those operations.)
pub proof fn lemma_conservation<B: BalancesManager, H: TransferHooks>(l: &AFT37<B, H>)
    requires
        l.wf(),
    ensures
        forall|id: IdView| #[trigger] l.supply(id) == l.held_sum(id),
{
    l.lemma_supply_is_held_sum();
}

/// Aggregate consistency: the value at an owner's aggregate key is the
/// number of assets it holds a nonzero quantity of, and the value at the
/// ledger's aggregate key is the number of assets with nonzero supply.
pub proof fn lemma_aggregate_consistency<B: BalancesManager, H: TransferHooks>(l: &AFT37<B, H>)
    requires
        l.wf(),
    ensures
        forall|o: Seq<u8>| #[trigger] l.held(o).finite(),
        forall|o: Seq<u8>| #![trigger l.distinct(Some(o))] l.distinct(Some(o)) == l.held(o).len(),
        l.existing().finite(),
        l.distinct(None) == l.existing().len(),
{
    l.lemma_store_wf();
    l.store().lemma_aggregate();
    assert forall|o: Seq<u8>| #[trigger] l.held(o).finite() by {
        assert(l.held(o) =~= held_in(l.store().balance_items(), o));
        lemma_held_bound(l.store().balance_items(), o);
    }
    assert forall|o: Seq<u8>| #![trigger l.distinct(Some(o))] l.distinct(Some(o)) == l.held(o).len() by {
        assert(l.held(o) =~= held_in(l.store().balance_items(), o));
    }
    assert(l.existing() =~= existing_in(l.store().supply_items()));
    lemma_existing_bound(l.store().supply_items());
}

/// The counting and the enumerating backends agree: two ledgers with the
/// same quantities and supplies report the same number of distinct assets
/// for every owner and for the whole ledger. Every operation determines the
/// new quantities and supplies from the old ones and its arguments alone, so
/// two ledgers that start empty and go through the same operations stay in
/// this relation after every step.
pub proof fn lemma_backends_agree<H1: TransferHooks, H2: TransferHooks>(
    c: &AFT37<CountingBalances, H1>,
    e: &AFT37<EnumerableBalances, H2>,
)
    requires
        c.wf(),
        e.wf(),
        forall|o: Seq<u8>, i: IdView| #[trigger] c.bal(o, i) == e.bal(o, i),
        forall|i: IdView| #[trigger] c.supply(i) == e.supply(i),
    ensures
        forall|o: Seq<u8>| #[trigger] c.distinct(Some(o)) == e.distinct(Some(o)),
        c.distinct(None) == e.distinct(None),
{
    lemma_aggregate_consistency(c);
    lemma_aggregate_consistency(e);
    assert forall|o: Seq<u8>| #[trigger] c.distinct(Some(o)) == e.distinct(Some(o)) by {
        assert(c.held(o) =~= e.held(o));
        assert(c.held(o).finite() && c.distinct(Some(o)) == c.held(o).len());
        assert(e.held(o).finite() && e.distinct(Some(o)) == e.held(o).len());
    }
    assert(c.existing() =~= e.existing());
}

/// A blanket approval makes the allowance unlimited for every asset,
/// whether or not it exists yet.
pub proof fn lemma_blanket_covers_all<B: BalancesManager, H: TransferHooks>(
    l: &AFT37<B, H>,
    owner: Seq<u8>,
    operator: Seq<u8>,
)
    requires
        l.wf(),
        l.approval(owner, operator, None) is Some,
    ensures
        forall|id: IdView| #[trigger] l.allowance_of(owner, operator, Some(id)) == MAX_BALANCE,
{
}

/// A blanket approval outlives every operation that keeps approvals, such
/// as minting: afterwards the allowance is still unlimited for every asset,
/// including the ones just created.
pub proof fn lemma_blanket_outlives<B: BalancesManager, H: TransferHooks>(
    before: &AFT37<B, H>,
    after: &AFT37<B, H>,
    owner: Seq<u8>,
    operator: Seq<u8>,
)
    requires
        before.wf(),
        after.wf(),
        before.approval(owner, operator, None) is Some,
        before.keeps_approvals(*after),
    ensures
        forall|id: IdView| #[trigger] after.allowance_of(owner, operator, Some(id)) == MAX_BALANCE,
{
    assert(after.approval(owner, operator, None) == before.approval(owner, operator, None));
}

/// In the enumerating backend each owner's list (and the list of all
/// owners) holds exactly the assets with nonzero balance (or supply), once
/// each, and its length is the aggregate value.
pub proof fn lemma_enumeration_matches<H: TransferHooks>(l: &AFT37<EnumerableBalances, H>)
    requires
        l.wf(),
    ensures
        forall|o: Seq<u8>| #[trigger]
            l.store().listed(Some(o)).to_set() == l.held(o) && l.store().listed(Some(o)).len()
                == l.distinct(Some(o)),
        l.store().listed(None).to_set() == l.existing(),
        l.store().listed(None).len() == l.distinct(None),
{
    l.lemma_store_wf();
    l.store().lemma_listed();
    l.store().lemma_aggregate();
    lemma_aggregate_consistency(l);
    assert forall|o: Seq<u8>| #[trigger]
        l.store().listed(Some(o)).to_set() == l.held(o) && l.store().listed(Some(o)).len()
            == l.distinct(Some(o)) by {
        assert(l.held(o) =~= held_in(l.store().balance_items(), o));
        l.store().listed(Some(o)).unique_seq_to_set();
    }
    assert(l.existing() =~= existing_in(l.store().supply_items()));
    l.store().listed(None).unique_seq_to_set();
}

/// Aggregate consistency of a balance store on its own, before and after
/// any of its operations (each keeps the store well formed): the value at
/// an owner's aggregate key is the number of assets it holds a nonzero
/// quantity of, and the store's aggregate is the number of assets with
/// nonzero supply; the enumeration lists hold exactly those assets.
pub proof fn lemma_store_aggregate<B: BalancesManager>(b: &B)
    requires
        b.wf(),
    ensures
        forall|o: Seq<u8>| #[trigger] b.aggregate(Some(o)) == held_in(b.balance_items(), o).len(),
        b.aggregate(None) == existing_in(b.supply_items()).len(),
        forall|o: Seq<u8>| #[trigger] b.listed(Some(o)).to_set() == held_in(b.balance_items(), o),
        b.listed(None).to_set() == existing_in(b.supply_items()),
{
    b.lemma_aggregate();
}

/// The two backends agree as stores: with the same quantities and supplies
/// they report the same aggregates, for every owner and for the store.
pub proof fn lemma_stores_agree(c: &CountingBalances, e: &EnumerableBalances)
    requires
        c.wf(),
        e.wf(),
        forall|o: Seq<u8>, i: IdView| #[trigger]
            amount_in(c.balance_items(), o, i) == amount_in(e.balance_items(), o, i),
        forall|i: IdView| #[trigger] supply_in(c.supply_items(), i) == supply_in(e.supply_items(), i),
    ensures
        forall|o: Option<Seq<u8>>| #[trigger] c.aggregate(o) == e.aggregate(o),
{
    c.lemma_aggregate();
    e.lemma_aggregate();
    assert forall|o: Option<Seq<u8>>| #[trigger] c.aggregate(o) == e.aggregate(o) by {
        match o {
            Some(x) => {
                assert(held_in(c.balance_items(), x) =~= held_in(e.balance_items(), x));
            },
            None => {
                assert(existing_in(c.supply_items()) =~= existing_in(e.supply_items()));
            },
        }
    }
}

} // verus!
