use allfeat_contracts::metadata::Metadata;
use allfeat_contracts::types::Id;

#[test]
fn attributes_are_set_and_replaced() {
    let mut m = Metadata::new();
    let id = Id::U32(7);
    assert_eq!(m.get_attribute(id.clone(), String::from("name")), None);
    m._set_attribute(&id, &String::from("name"), &String::from("first")).unwrap();
    m._set_attribute(&id, &String::from("uri"), &String::from("ipfs://x")).unwrap();
    m._set_attribute(&id, &String::from("name"), &String::from("second")).unwrap();
    assert_eq!(m.get_attribute(id.clone(), String::from("name")), Some(String::from("second")));
    assert_eq!(m._get_attribute(&id, &String::from("uri")), Some(String::from("ipfs://x")));
    assert_eq!(m.get_attribute(Id::U64(7), String::from("name")), None);
}
