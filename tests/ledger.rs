use allfeat_contracts::aft37::AFT37;
use allfeat_contracts::counting::CountingBalances;
use allfeat_contracts::enumerable::EnumerableBalances;
use allfeat_contracts::errors::AFT37Error;
use allfeat_contracts::hooks::NoHooks;
use allfeat_contracts::types::{AccountId, Id, MAX_BALANCE};

fn acc(n: u8) -> AccountId {
    AccountId([n; 32])
}

fn counting() -> AFT37<CountingBalances, NoHooks> {
    AFT37::new(NoHooks)
}

fn enumerable() -> AFT37<EnumerableBalances, NoHooks> {
    AFT37::new(NoHooks)
}

#[test]
fn mint_then_transfer_scenario() {
    let mut l = counting();
    let (p, q) = (acc(1), acc(2));
    let x = Id::U8(1);
    let y = Id::Bytes(vec![7, 7]);
    assert_eq!(l._mint_to(&p, vec![(x.clone(), 10), (y.clone(), 5)]), Ok(()));
    assert_eq!(l.balance_of(&p, &Some(x.clone())), 10);
    assert_eq!(l.balance_of(&p, &Some(y.clone())), 5);
    assert_eq!(l.balance_of(&p, &None), 2);
    assert_eq!(l.total_supply(&None), 2);
    assert_eq!(l.transfer_from(&p, &p, &q, &x, 10), Ok(()));
    assert_eq!(l.balance_of(&p, &Some(x.clone())), 0);
    assert_eq!(l.balance_of(&p, &None), 1);
    assert_eq!(l.balance_of(&q, &Some(x.clone())), 10);
    assert_eq!(l.balance_of(&q, &None), 1);
    assert_eq!(l.total_supply(&Some(x.clone())), 10);
    assert_eq!(l.total_supply(&None), 2);
}

#[test]
fn mint_then_transfer_scenario_enumerable() {
    let mut l = enumerable();
    let (p, q) = (acc(1), acc(2));
    let x = Id::U8(1);
    let y = Id::U8(2);
    assert_eq!(l._mint_to(&p, vec![(x.clone(), 10), (y.clone(), 5)]), Ok(()));
    assert_eq!(l.balance_of(&p, &None), 2);
    assert_eq!(l.total_supply(&None), 2);
    assert_eq!(l.transfer_from(&p, &p, &q, &x, 10), Ok(()));
    assert_eq!(l.balance_of(&p, &None), 1);
    assert_eq!(l.owners_token_by_index(&p, 0), Some(y.clone()));
    assert_eq!(l.owners_token_by_index(&p, 1), None);
    assert_eq!(l.owners_token_by_index(&q, 0), Some(x.clone()));
    assert_eq!(l.token_by_index(0), Some(x));
    assert_eq!(l.token_by_index(1), Some(y));
    assert_eq!(l.token_by_index(2), None);
}

#[test]
fn batch_is_atomic_when_second_pair_underflows() {
    let mut l = counting();
    let (p, q) = (acc(1), acc(2));
    let (a, b) = (Id::U32(1), Id::U32(2));
    l._mint_to(&p, vec![(a.clone(), 10), (b.clone(), 3)]).unwrap();
    let r = l.batch_transfer_from(&p, &p, &q, vec![(a.clone(), 4), (b.clone(), 5)]);
    assert_eq!(r, Err(AFT37Error::InsufficientBalance));
    assert_eq!(l.balance_of(&p, &Some(a.clone())), 10);
    assert_eq!(l.balance_of(&p, &Some(b.clone())), 3);
    assert_eq!(l.balance_of(&q, &Some(a.clone())), 0);
    assert_eq!(l.balance_of(&q, &None), 0);
}

#[test]
fn batch_duplicates_apply_each_time() {
    let mut l = counting();
    let (p, q) = (acc(1), acc(2));
    let a = Id::U16(9);
    l._mint_to(&p, vec![(a.clone(), 10)]).unwrap();
    assert_eq!(l.batch_transfer_from(&p, &p, &q, vec![(a.clone(), 6), (a.clone(), 5)]), Err(AFT37Error::InsufficientBalance));
    assert_eq!(l.batch_transfer_from(&p, &p, &q, vec![(a.clone(), 6), (a.clone(), 4)]), Ok(()));
    assert_eq!(l.balance_of(&p, &Some(a.clone())), 0);
    assert_eq!(l.balance_of(&q, &Some(a.clone())), 10);
    assert_eq!(l.balance_of(&p, &None), 0);
    assert_eq!(l.total_supply(&Some(a)), 10);
}

#[test]
fn batch_by_operator_spends_allowance() {
    let mut l = counting();
    let (p, q, op) = (acc(1), acc(2), acc(3));
    let a = Id::U64(5);
    l._mint_to(&p, vec![(a.clone(), 10)]).unwrap();
    l.approve(&p, &op, &Some(a.clone()), 7).unwrap();
    assert_eq!(l.batch_transfer_from(&op, &p, &q, vec![(a.clone(), 8)]), Err(AFT37Error::NotAllowed));
    assert_eq!(l.batch_transfer_from(&op, &p, &q, vec![(a.clone(), 4), (a.clone(), 4)]), Err(AFT37Error::InsufficientBalance));
    assert_eq!(l.allowance(&p, &op, &Some(a.clone())), 7);
    assert_eq!(l.batch_transfer_from(&op, &p, &q, vec![(a.clone(), 4), (a.clone(), 3)]), Ok(()));
    assert_eq!(l.allowance(&p, &op, &Some(a.clone())), 0);
    assert_eq!(l.balance_of(&q, &Some(a)), 7);
}

#[test]
fn transfer_by_operator_needs_allowance() {
    let mut l = counting();
    let (p, q, op) = (acc(1), acc(2), acc(3));
    let a = Id::U128(1);
    l._mint_to(&p, vec![(a.clone(), 10)]).unwrap();
    assert_eq!(l.transfer_from(&op, &p, &q, &a, 1), Err(AFT37Error::NotAllowed));
    l.approve(&p, &op, &Some(a.clone()), 5).unwrap();
    assert_eq!(l.transfer_from(&op, &p, &q, &a, 3), Ok(()));
    assert_eq!(l.allowance(&p, &op, &Some(a.clone())), 2);
    assert_eq!(l.balance_of(&p, &Some(a.clone())), 7);
    assert_eq!(l.balance_of(&q, &Some(a.clone())), 3);
}

#[test]
fn transfer_more_than_held_changes_nothing() {
    let mut l = counting();
    let (p, q, op) = (acc(1), acc(2), acc(3));
    let a = Id::U8(4);
    l._mint_to(&p, vec![(a.clone(), 2)]).unwrap();
    l.approve(&p, &op, &Some(a.clone()), 5).unwrap();
    assert_eq!(l.transfer_from(&op, &p, &q, &a, 3), Err(AFT37Error::InsufficientBalance));
    assert_eq!(l.allowance(&p, &op, &Some(a.clone())), 5);
    assert_eq!(l.balance_of(&p, &Some(a)), 2);
}

#[test]
fn transfer_to_self_keeps_balance() {
    let mut l = counting();
    let p = acc(1);
    let a = Id::U8(4);
    l._mint_to(&p, vec![(a.clone(), 2)]).unwrap();
    assert_eq!(l.transfer_from(&p, &p, &p, &a, 2), Ok(()));
    assert_eq!(l.balance_of(&p, &Some(a)), 2);
    assert_eq!(l.balance_of(&p, &None), 1);
}

#[test]
fn blanket_approval_is_unlimited_for_every_asset() {
    let mut l = counting();
    let (p, op) = (acc(1), acc(3));
    l.approve(&p, &op, &None, 1).unwrap();
    assert_eq!(l.allowance(&p, &op, &Some(Id::U8(1))), MAX_BALANCE);
    assert_eq!(l.allowance(&p, &op, &None), MAX_BALANCE);
    l._mint_to(&p, vec![(Id::U8(2), 4)]).unwrap();
    assert_eq!(l.allowance(&p, &op, &Some(Id::U8(2))), MAX_BALANCE);
    assert_eq!(l.transfer_from(&op, &p, &op, &Id::U8(2), 4), Ok(()));
    assert_eq!(l.allowance(&p, &op, &Some(Id::U8(2))), MAX_BALANCE);
    l.approve(&p, &op, &None, 0).unwrap();
    assert_eq!(l.allowance(&p, &op, &Some(Id::U8(2))), 0);
    assert_eq!(l.allowance(&p, &op, &None), 0);
}

#[test]
fn approve_self_is_rejected() {
    let mut l = counting();
    let p = acc(1);
    assert_eq!(l.approve(&p, &p, &Some(Id::U8(1)), 3), Err(AFT37Error::SelfApprove));
    assert_eq!(l.allowance(&p, &p, &Some(Id::U8(1))), 0);
}

#[test]
fn approve_zero_deletes_entry() {
    let mut l = counting();
    let (p, op) = (acc(1), acc(2));
    l.approve(&p, &op, &Some(Id::U8(1)), 3).unwrap();
    assert_eq!(l.allowance(&p, &op, &Some(Id::U8(1))), 3);
    l.approve(&p, &op, &Some(Id::U8(1)), 0).unwrap();
    assert_eq!(l.allowance(&p, &op, &Some(Id::U8(1))), 0);
}

#[test]
fn spend_by_owner_is_exempt() {
    let mut l = counting();
    let (p, op) = (acc(1), acc(2));
    l.approve(&p, &op, &Some(Id::U8(1)), 3).unwrap();
    assert_eq!(l._decrease_allowance(&p, &p, &Id::U8(1), 1000), Ok(()));
    assert_eq!(l.allowance(&p, &op, &Some(Id::U8(1))), 3);
    assert_eq!(l.allowance(&p, &p, &Some(Id::U8(1))), 0);
}

#[test]
fn spend_beyond_allowance_fails() {
    let mut l = counting();
    let (p, op) = (acc(1), acc(2));
    l.approve(&p, &op, &Some(Id::U8(1)), 3).unwrap();
    assert_eq!(l._decrease_allowance(&p, &op, &Id::U8(1), 4), Err(AFT37Error::InsufficientBalance));
    assert_eq!(l._decrease_allowance(&p, &op, &Id::U8(1), 2), Ok(()));
    assert_eq!(l.allowance(&p, &op, &Some(Id::U8(1))), 1);
}

#[test]
fn burn_reduces_supply_and_counts() {
    let mut l = enumerable();
    let p = acc(1);
    let (a, b) = (Id::U8(1), Id::U8(2));
    l._mint_to(&p, vec![(a.clone(), 3), (b.clone(), 2)]).unwrap();
    assert_eq!(l._burn_from(&p, vec![(a.clone(), 4)]), Err(AFT37Error::InsufficientBalance));
    assert_eq!(l.balance_of(&p, &Some(a.clone())), 3);
    assert_eq!(l._burn_from(&p, vec![(a.clone(), 1), (a.clone(), 2)]), Ok(()));
    assert_eq!(l.balance_of(&p, &Some(a.clone())), 0);
    assert_eq!(l.total_supply(&Some(a.clone())), 0);
    assert_eq!(l.total_supply(&None), 1);
    assert_eq!(l.balance_of(&p, &None), 1);
    assert_eq!(l.token_by_index(0), Some(b.clone()));
    assert_eq!(l._token_exists(&a), Err(AFT37Error::TokenNotExists));
    assert_eq!(l._token_exists(&b), Ok(()));
}

#[test]
fn empty_mint_and_burn_succeed() {
    let mut l = counting();
    let p = acc(1);
    assert_eq!(l._mint_to(&p, vec![]), Ok(()));
    assert_eq!(l._burn_from(&p, vec![]), Ok(()));
    assert_eq!(l.total_supply(&None), 0);
}

#[test]
fn zero_amounts_change_nothing() {
    let mut l = counting();
    let (p, q) = (acc(1), acc(2));
    let a = Id::U8(1);
    l._mint_to(&p, vec![(a.clone(), 0)]).unwrap();
    assert_eq!(l.balance_of(&p, &None), 0);
    assert_eq!(l.total_supply(&None), 0);
    assert_eq!(l.transfer_from(&p, &p, &q, &a, 0), Ok(()));
    assert_eq!(l.balance_of(&q, &None), 0);
}

#[test]
fn counting_and_enumerable_agree_step_by_step() {
    let mut c = counting();
    let mut e = enumerable();
    let (p, q) = (acc(1), acc(2));
    let ids = [Id::U8(1), Id::U16(1), Id::Bytes(vec![1])];
    for id in ids.iter() {
        c._mint_to(&p, vec![(id.clone(), 2)]).unwrap();
        e._mint_to(&p, vec![(id.clone(), 2)]).unwrap();
        assert_eq!(c.balance_of(&p, &None), e.balance_of(&p, &None));
    }
    for id in ids.iter() {
        c.transfer_from(&p, &p, &q, id, 2).unwrap();
        e.transfer_from(&p, &p, &q, id, 2).unwrap();
        assert_eq!(c.balance_of(&p, &None), e.balance_of(&p, &None));
        assert_eq!(c.balance_of(&q, &None), e.balance_of(&q, &None));
    }
    c._burn_from(&q, vec![(Id::U16(1), 1)]).unwrap();
    e._burn_from(&q, vec![(Id::U16(1), 1)]).unwrap();
    assert_eq!(c.balance_of(&q, &None), e.balance_of(&q, &None));
    assert_eq!(c.total_supply(&None), e.total_supply(&None));
    assert_eq!(c.total_supply(&None), 3);
}

#[test]
fn ids_differ_by_tag() {
    let mut l = counting();
    let p = acc(1);
    l._mint_to(&p, vec![(Id::U8(1), 1), (Id::U16(1), 1)]).unwrap();
    assert_eq!(l.balance_of(&p, &None), 2);
    assert_eq!(l.balance_of(&p, &Some(Id::U32(1))), 0);
}

#[test]
fn supply_equals_sum_of_balances_after_operations() {
    let mut l = counting();
    let accounts = [acc(1), acc(2), acc(3)];
    let a = Id::U8(1);
    l._mint_to(&accounts[0], vec![(a.clone(), 50)]).unwrap();
    l.transfer_from(&accounts[0], &accounts[0], &accounts[1], &a, 20).unwrap();
    l.batch_transfer_from(&accounts[1], &accounts[1], &accounts[2], vec![(a.clone(), 5), (a.clone(), 5)]).unwrap();
    l._burn_from(&accounts[2], vec![(a.clone(), 3)]).unwrap();
    let sum: u128 = accounts.iter().map(|x| l.balance_of(x, &Some(a.clone()))).sum();
    assert_eq!(l.total_supply(&Some(a.clone())), 47);
    assert_eq!(sum, 47);
}

#[test]
fn aggregate_counts_distinct_nonzero_assets() {
    let mut l = enumerable();
    let (p, q) = (acc(1), acc(2));
    l._mint_to(&p, vec![(Id::U8(1), 1), (Id::U8(2), 2), (Id::U8(3), 3)]).unwrap();
    l.transfer_from(&p, &p, &q, &Id::U8(2), 1).unwrap();
    assert_eq!(l.balance_of(&p, &None), 3);
    assert_eq!(l.balance_of(&q, &None), 1);
    l._burn_from(&p, vec![(Id::U8(1), 1)]).unwrap();
    assert_eq!(l.balance_of(&p, &None), 2);
    assert_eq!(l.total_supply(&None), 2);
    assert_eq!(l.owners_token_by_index(&p, 0), Some(Id::U8(3)));
    assert_eq!(l.owners_token_by_index(&p, 1), Some(Id::U8(2)));
}

#[test]
fn burn_moves_last_asset_into_freed_position() {
    let mut l = enumerable();
    let p = acc(1);
    let (a, b, c) = (Id::U8(1), Id::U8(2), Id::U8(3));
    assert_eq!(l._mint_to(&p, vec![(a.clone(), 1)]), Ok(()));
    assert_eq!(l._mint_to(&p, vec![(b.clone(), 1)]), Ok(()));
    assert_eq!(l._mint_to(&p, vec![(c.clone(), 1)]), Ok(()));
    assert_eq!(l._burn_from(&p, vec![(b.clone(), 1)]), Ok(()));
    assert_eq!(l.owners_token_by_index(&p, 0), Some(a.clone()));
    assert_eq!(l.owners_token_by_index(&p, 1), Some(c.clone()));
    assert_eq!(l.owners_token_by_index(&p, 2), None);
    assert_eq!(l.token_by_index(1), Some(c));
    assert_eq!(l.token_by_index(2), None);
    assert_eq!(l.total_supply(&None), 2);
}

#[test]
fn burn_beyond_supply_changes_nothing() {
    let mut l = counting();
    let p = acc(1);
    l._mint_to(&p, vec![(Id::U8(1), 2)]).unwrap();
    assert_eq!(l._burn_from(&p, vec![(Id::U8(1), 3)]), Err(AFT37Error::InsufficientBalance));
    assert_eq!(l.total_supply(&Some(Id::U8(1))), 2);
    assert_eq!(l.balance_of(&p, &None), 1);
}
