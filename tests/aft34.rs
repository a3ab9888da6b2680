use allfeat_contracts::aft34::{AFT34Balances, AFT34Error, AFT34PayableMint};
use allfeat_contracts::types::{AccountId, Id};

fn acc(n: u8) -> AccountId {
    AccountId([n; 32])
}

#[test]
fn ownership_lists_and_approvals() {
    let mut b = AFT34Balances::new();
    let (a, c) = (acc(1), acc(2));
    for n in 1..=3u64 {
        b._increase_balance(&a, &Id::U64(n), true);
        b._insert_token_owner(&Id::U64(n), &a);
    }
    assert_eq!(b._balance_of(&a), 3);
    assert_eq!(b._total_supply(), 3);
    assert_eq!(b._owner_of(&Id::U64(2)), Some(a));
    b._decrease_balance(&a, &Id::U64(1), true);
    b._remove_token_owner(&Id::U64(1));
    assert_eq!(b._owner_of(&Id::U64(1)), None);
    assert_eq!(b.owners_token_by_index(&a, 0), Ok(Id::U64(3)));
    assert_eq!(b.owners_token_by_index(&a, 1), Ok(Id::U64(2)));
    assert_eq!(b.owners_token_by_index(&a, 2), Err(AFT34Error::TokenNotExists));
    assert_eq!(b.token_by_index(0), Ok(Id::U64(3)));
    assert_eq!(b._operator_approvals(&a, &c, &None), None);
    b._insert_operator_approvals(&a, &c, &None);
    assert_eq!(b._operator_approvals(&a, &c, &None), Some(()));
    assert_eq!(b._operator_approvals(&a, &c, &Some(Id::U64(2))), None);
    b._remove_operator_approvals(&a, &c, &None);
    assert_eq!(b._operator_approvals(&a, &c, &None), None);
}

#[test]
fn numbered_sale_checks() {
    let sale = AFT34PayableMint { last_token_id: 8, max_supply: 10, price_per_mint: 5 };
    assert_eq!(sale.check_value(10, 2), Ok(()));
    assert!(matches!(sale.check_value(9, 2), Err(AFT34Error::Custom(_))));
    assert_eq!(sale.check_amount(2), Ok(()));
    assert_eq!(sale.check_amount(3), Err(AFT34Error::Custom(String::from("CollectionIsFull"))));
    assert_eq!(sale.check_amount(0), Err(AFT34Error::Custom(String::from("CannotMintZeroTokens"))));
    let tokens = AFT34Balances::new();
    assert_eq!(sale.token_exists(&tokens, &Id::U64(1)), Err(AFT34Error::TokenNotExists));
}

#[test]
fn token_uri_joins_base_and_token_part() {
    let mut tokens = AFT34Balances::new();
    let a = acc(1);
    tokens._increase_balance(&a, &Id::U64(1), true);
    tokens._insert_token_owner(&Id::U64(1), &a);
    let mut uris = allfeat_contracts::aft34::AFT34URIStorage::new();
    assert_eq!(uris._set_token_uri(&tokens, Id::U64(2), String::from("x")), Err(AFT34Error::TokenNotExists));
    assert_eq!(uris.token_uri(&tokens, Id::U64(2)), Err(AFT34Error::TokenNotExists));
    assert_eq!(uris.token_uri(&tokens, Id::U64(1)), Ok(None));
    uris._set_token_uri(&tokens, Id::U64(1), String::from("1.json")).unwrap();
    assert_eq!(uris.token_uri(&tokens, Id::U64(1)), Ok(Some(String::from("1.json"))));
    uris._set_base_uri(Some(String::from("ipfs://base/")));
    assert_eq!(uris.base_uri(), Some(String::from("ipfs://base/")));
    assert_eq!(uris.token_uri(&tokens, Id::U64(1)), Ok(Some(String::from("ipfs://base/1.json"))));
    uris._remove_token_uri(&Id::U64(1));
    assert_eq!(uris.token_uri(&tokens, Id::U64(1)), Ok(None));
}
