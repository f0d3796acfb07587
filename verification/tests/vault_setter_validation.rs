//! Input validation of the vault's setters.

use callora::errors::VaultError;
use callora::vault::CalloraVault;

const VAULT: u64 = 100;
const ADMIN: u64 = 1;
const USDC: u64 = 10;
const SETTLEMENT: u64 = 20;

fn setup() -> CalloraVault {
    let mut v = CalloraVault::new(VAULT);
    v.init(ADMIN, USDC, None, None, None, None, None, 0).unwrap();
    v
}

fn s(text: &str) -> Vec<u8> {
    text.as_bytes().to_vec()
}

#[test]
fn set_price_successful() {
    let mut v = setup();
    v.set_price(ADMIN, s("off1"), s("1000")).unwrap();
    assert_eq!(v.get_price(&s("off1")), Some(s("1000")));
}

#[test]
fn set_settlement_valid_address_succeeds() {
    let mut v = setup();
    v.set_settlement(ADMIN, SETTLEMENT).unwrap();
    assert_eq!(v.get_settlement(), Ok(SETTLEMENT));
}

#[test]
fn set_metadata_empty_offering_id_fails() {
    let mut v = setup();
    assert_eq!(v.set_metadata(ADMIN, s(""), s("valid")), Err(VaultError::OfferingIdInvalid));
}

#[test]
fn set_metadata_null_byte_in_offering_id_fails() {
    let mut v = setup();
    assert_eq!(v.set_metadata(ADMIN, s("off\x00ering"), s("valid")), Err(VaultError::OfferingIdInvalid));
}

#[test]
fn set_metadata_control_char_in_offering_id_fails() {
    let mut v = setup();
    assert_eq!(v.set_metadata(ADMIN, s("off\x01ering"), s("valid")), Err(VaultError::OfferingIdInvalid));
}

#[test]
fn set_metadata_leading_space_offering_id_fails() {
    let mut v = setup();
    assert_eq!(v.set_metadata(ADMIN, s(" off1"), s("valid")), Err(VaultError::OfferingIdInvalid));
}

#[test]
fn set_metadata_trailing_space_offering_id_fails() {
    let mut v = setup();
    assert_eq!(v.set_metadata(ADMIN, s("off1 "), s("valid")), Err(VaultError::OfferingIdInvalid));
}

#[test]
fn set_metadata_whitespace_only_offering_id_fails() {
    let mut v = setup();
    assert_eq!(v.set_metadata(ADMIN, s("   "), s("valid")), Err(VaultError::OfferingIdInvalid));
}

#[test]
fn set_metadata_empty_metadata_fails() {
    let mut v = setup();
    assert_eq!(v.set_metadata(ADMIN, s("off1"), s("")), Err(VaultError::MetadataInvalid));
}

#[test]
fn set_metadata_null_byte_in_metadata_fails() {
    let mut v = setup();
    assert_eq!(v.set_metadata(ADMIN, s("off1"), s("meta\x00data")), Err(VaultError::MetadataInvalid));
}

#[test]
fn set_metadata_control_char_in_metadata_fails() {
    let mut v = setup();
    assert_eq!(v.set_metadata(ADMIN, s("off1"), s("meta\x1Fdata")), Err(VaultError::MetadataInvalid));
}

#[test]
fn set_metadata_leading_space_metadata_fails() {
    let mut v = setup();
    assert_eq!(v.set_metadata(ADMIN, s("off1"), s(" metadata")), Err(VaultError::MetadataInvalid));
}

#[test]
fn set_metadata_trailing_space_metadata_fails() {
    let mut v = setup();
    assert_eq!(v.set_metadata(ADMIN, s("off1"), s("metadata ")), Err(VaultError::MetadataInvalid));
}

#[test]
fn set_metadata_whitespace_only_metadata_fails() {
    let mut v = setup();
    assert_eq!(v.set_metadata(ADMIN, s("off1"), s("   ")), Err(VaultError::MetadataInvalid));
}

#[test]
fn set_metadata_exact_max_length_succeeds() {
    let mut v = setup();
    let offering_id = "a".repeat(64);
    let metadata = "b".repeat(256);
    assert_eq!(v.set_metadata(ADMIN, s(&offering_id), s(&metadata)), Ok(s(&metadata)));
}

#[test]
fn set_price_empty_offering_id_fails() {
    let mut v = setup();
    assert_eq!(v.set_price(ADMIN, s(""), s("100")), Err(VaultError::OfferingIdInvalid));
}

#[test]
fn set_price_null_byte_in_offering_id_fails() {
    let mut v = setup();
    assert_eq!(v.set_price(ADMIN, s("off\x00ering"), s("100")), Err(VaultError::OfferingIdInvalid));
}

#[test]
fn set_price_control_char_in_offering_id_fails() {
    let mut v = setup();
    assert_eq!(v.set_price(ADMIN, s("off\x01ering"), s("100")), Err(VaultError::OfferingIdInvalid));
}

#[test]
fn set_price_leading_space_offering_id_fails() {
    let mut v = setup();
    assert_eq!(v.set_price(ADMIN, s(" off1"), s("100")), Err(VaultError::OfferingIdInvalid));
}

#[test]
fn set_price_trailing_space_offering_id_fails() {
    let mut v = setup();
    assert_eq!(v.set_price(ADMIN, s("off1 "), s("100")), Err(VaultError::OfferingIdInvalid));
}

#[test]
fn set_price_whitespace_only_offering_id_fails() {
    let mut v = setup();
    assert_eq!(v.set_price(ADMIN, s("   "), s("100")), Err(VaultError::OfferingIdInvalid));
}

#[test]
fn set_price_refuses_a_long_id_and_a_zero_price() {
    let mut v = setup();
    assert_eq!(v.set_price(ADMIN, s(&"a".repeat(65)), s("100")), Err(VaultError::OfferingIdTooLong));
    assert_eq!(v.set_price(ADMIN, s("off1"), s("0")), Err(VaultError::PriceParseError));
    assert_eq!(v.get_price(&s("off1")), None);
}
