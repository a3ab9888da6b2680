use allfeat_contracts::aft37::AFT37;
use allfeat_contracts::counting::CountingBalances;
use allfeat_contracts::errors::AFT37Error;
use allfeat_contracts::hooks::NoHooks;
use allfeat_contracts::payable_mint::PayableMint;
use allfeat_contracts::types::{AccountId, Id};

#[test]
fn paid_mint_within_limits() {
    let mut l: AFT37<CountingBalances, NoHooks> = AFT37::new(NoHooks);
    let mut pm = PayableMint::new();
    let to = AccountId([5; 32]);
    let (a, b) = (Id::U8(1), Id::U8(2));
    assert_eq!(pm.price(&a), Err(AFT37Error::TokenNotExists));
    assert_eq!(pm.max_supply(&a), Err(AFT37Error::TokenNotExists));
    pm.set_price(a.clone(), 3).unwrap();
    pm.set_max_supply(a.clone(), 10).unwrap();
    assert_eq!(pm.price(&a), Ok(3));
    assert_eq!(pm.max_supply(&a), Ok(10));
    assert_eq!(pm.mint(&mut l, 10, &to, vec![(a.clone(), 4)]), Err(AFT37Error::Custom(String::from("BadMintValue"))));
    assert_eq!(pm.mint(&mut l, 12, &to, vec![(a.clone(), 4)]), Ok(()));
    assert_eq!(l.balance_of(&to, &Some(a.clone())), 4);
    assert_eq!(pm.mint(&mut l, 21, &to, vec![(a.clone(), 7)]), Err(AFT37Error::Custom(String::from("CollectionIsFull"))));
    assert_eq!(pm.mint(&mut l, 0, &to, vec![(a.clone(), 0)]), Err(AFT37Error::Custom(String::from("CannotMintZeroTokens"))));
    assert_eq!(pm.mint(&mut l, 0, &to, vec![(b.clone(), 1)]), Err(AFT37Error::TokenNotExists));
    assert_eq!(pm.mint(&mut l, 18, &to, vec![(a.clone(), 6)]), Ok(()));
    assert_eq!(l.total_supply(&Some(a)), 10);
}

#[test]
fn value_sums_each_pair() {
    let mut pm = PayableMint::new();
    pm.set_price(Id::U8(1), 2).unwrap();
    pm.set_price(Id::U8(2), 5).unwrap();
    let items = vec![(Id::U8(1), 3), (Id::U8(2), 1), (Id::U8(3), 9)];
    assert_eq!(pm.check_value(11, &items), Ok(()));
    assert!(pm.check_value(12, &items).is_err());
}
