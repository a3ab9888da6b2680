use allfeat_contracts::artists::{ArtistExtension, ArtistsError, ArtistsFunc};

#[test]
fn name_max_length_decodes_little_endian() {
    assert_eq!(ArtistExtension::name_max_length(&[0x10, 0x01, 0, 0]), Some(0x110));
    assert_eq!(ArtistExtension::name_max_length(&[0xff, 0xff, 0xff, 0xff, 7]), Some(u32::MAX));
    assert_eq!(ArtistExtension::name_max_length(&[1, 2, 3]), None);
}

#[test]
fn creation_deposit_amount_decodes_little_endian() {
    let mut b = [0u8; 16];
    b[0] = 0x40;
    b[1] = 0x42;
    b[2] = 0x0f;
    assert_eq!(ArtistExtension::creation_deposit_amount(&b), Some(1_000_000));
    assert_eq!(ArtistExtension::creation_deposit_amount(&[0xff; 16]), Some(u128::MAX));
    assert_eq!(ArtistExtension::creation_deposit_amount(&[0; 15]), None);
}

#[test]
fn func_ids_map_to_queries() {
    assert_eq!(ArtistsFunc::from_func_id(1), Some(ArtistsFunc::CreationDepositAmount));
    assert_eq!(ArtistsFunc::from_func_id(2), Some(ArtistsFunc::NameMaxLength));
    assert_eq!(ArtistsFunc::from_func_id(51), Some(ArtistsFunc::Artists));
    assert_eq!(ArtistsFunc::from_func_id(52), Some(ArtistsFunc::Candidates));
    assert_eq!(ArtistsFunc::from_func_id(3), None);
}

#[test]
fn module_messages_map_to_errors() {
    assert_eq!(ArtistsError::from_module_message(Some("NameTooLong")), ArtistsError::NameTooLong);
    assert_eq!(ArtistsError::from_module_message(Some("ArtistNotFound")), ArtistsError::ArtistNotFound);
    assert_eq!(ArtistsError::from_module_message(Some("Other")), ArtistsError::UnknownError);
    assert_eq!(ArtistsError::from_module_message(None), ArtistsError::UnknownError);
    assert_eq!(ArtistsError::UnknownError.code(), 99);
    assert_eq!(ArtistsError::ArtistNotFound.code(), 8);
    assert_eq!(ArtistsError::Success.code(), 0);
}
