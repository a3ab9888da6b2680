use allfeat_contracts::multi_mapping::MultiMapping;
use allfeat_contracts::types::{AccountId, EnumerableKey, Id};

#[test]
fn removal_swaps_last_into_slot() {
    let mut m: MultiMapping<EnumerableKey, Id> = MultiMapping::new();
    let k = EnumerableKey { owner: Some(AccountId([1; 32])) };
    m.insert(&k, Id::U8(b'A'));
    m.insert(&k, Id::U8(b'B'));
    m.insert(&k, Id::U8(b'C'));
    m.remove_value(&k, &Id::U8(b'B'));
    assert_eq!(m.count(&k), 2);
    assert_eq!(m.get_value(&k, 1), Some(Id::U8(b'C')));
    assert_eq!(m.get_value(&k, 0), Some(Id::U8(b'A')));
    assert_eq!(m.get_value(&k, 2), None);
}

#[test]
fn keys_are_separate() {
    let mut m: MultiMapping<EnumerableKey, Id> = MultiMapping::new();
    let all = EnumerableKey { owner: None };
    let one = EnumerableKey { owner: Some(AccountId([1; 32])) };
    m.insert(&all, Id::U8(1));
    m.remove_value(&one, &Id::U8(1));
    m.remove_value(&all, &Id::U8(9));
    assert_eq!(m.count(&all), 1);
    assert_eq!(m.count(&one), 0);
    assert_eq!(m.get_value(&one, 0), None);
}
