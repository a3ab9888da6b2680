use allfeat_contracts::aft22::{AFT22Error, AFT22};
use allfeat_contracts::counting::CountingBalances;
use allfeat_contracts::types::AccountId;

fn acc(n: u8) -> AccountId {
    AccountId([n; 32])
}

#[test]
fn fungible_mint_transfer_burn() {
    let mut t: AFT22<CountingBalances> = AFT22::new();
    let (a, b) = (acc(1), acc(2));
    assert_eq!(t._mint_to(&a, 100), Ok(()));
    assert_eq!(t.total_supply(), 100);
    assert_eq!(t.transfer(&a, &b, 30), Ok(()));
    assert_eq!(t.balance_of(&a), 70);
    assert_eq!(t.balance_of(&b), 30);
    assert_eq!(t.transfer(&b, &a, 31), Err(AFT22Error::InsufficientBalance));
    assert_eq!(t._burn_from(&b, 31), Err(AFT22Error::InsufficientBalance));
    assert_eq!(t._burn_from(&b, 30), Ok(()));
    assert_eq!(t.total_supply(), 70);
    assert_eq!(t.balance_of(&b), 0);
}

#[test]
fn fungible_transfer_from_spends_allowance() {
    let mut t: AFT22<CountingBalances> = AFT22::new();
    let (a, b, s) = (acc(1), acc(2), acc(3));
    t._mint_to(&a, 10).unwrap();
    assert_eq!(t.transfer_from(&s, &a, &b, 1), Err(AFT22Error::InsufficientAllowance));
    t.increase_allowance(&a, &s, 20).unwrap();
    assert_eq!(t.transfer_from(&s, &a, &b, 11), Err(AFT22Error::InsufficientBalance));
    assert_eq!(t.allowance(&a, &s), 20);
    assert_eq!(t.transfer_from(&s, &a, &b, 4), Ok(()));
    assert_eq!(t.allowance(&a, &s), 16);
    assert_eq!(t.balance_of(&b), 4);
    assert_eq!(t.decrease_allowance(&a, &s, 17), Err(AFT22Error::InsufficientAllowance));
    assert_eq!(t.decrease_allowance(&a, &s, 16), Ok(()));
    assert_eq!(t.allowance(&a, &s), 0);
}

#[test]
fn fungible_cap_limits_minting() {
    let mut t: AFT22<CountingBalances> = AFT22::new();
    let a = acc(1);
    assert!(matches!(t._init_cap(0), Err(AFT22Error::Custom(_))));
    assert_eq!(t._init_cap(50), Ok(()));
    assert_eq!(t.cap(), 50);
    assert_eq!(t._mint_to(&a, 40), Ok(()));
    assert!(!t._is_cap_exceeded(10));
    assert!(t._is_cap_exceeded(11));
    assert_eq!(t._mint_to(&a, 11), Err(AFT22Error::Custom(String::from("Cap exceeded"))));
    assert_eq!(t.total_supply(), 40);
    assert_eq!(t._mint_to(&a, 10), Ok(()));
    assert_eq!(t.total_supply(), 50);
}
