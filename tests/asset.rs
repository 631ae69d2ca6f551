use core_assets::asset::{AssetV1, ASSET_LEN};
use core_assets::error::CoreError;
use core_assets::types::{Key, PodStr, UpdateAuthorityType};
use core_assets::update_authority::UpdateAuthority;

#[test]
fn pod_str_keeps_text_and_truncates() {
    let s: PodStr<32> = PodStr::from_str("hello");
    assert_eq!(s.len, 5);
    assert_eq!(s.as_str(), "hello");
    assert_eq!(s.value[5], 0);
    let long = "x".repeat(40);
    let t: PodStr<32> = PodStr::from_str(&long);
    assert_eq!(t.len, 32);
    assert_eq!(t.as_str(), &long[..32]);
    let mut bad: PodStr<4> = PodStr::from_str("ab");
    bad.value[0] = 0xff;
    assert_eq!(bad.as_str(), "");
}

#[test]
fn update_authority_constructors() {
    let none = UpdateAuthority::none();
    assert!(!none.is_some());
    assert_eq!(none.key(), [0u8; 32]);
    let addr = UpdateAuthority::address([4u8; 32]);
    assert!(addr.is_some());
    assert_eq!(addr.tag, UpdateAuthorityType::Address);
    assert_eq!(addr.key(), [4u8; 32]);
    let coll = UpdateAuthority::collection([6u8; 32]);
    assert_eq!(coll.tag, UpdateAuthorityType::Collection);
    assert_eq!(coll.key(), [6u8; 32]);
}

#[test]
fn new_asset_has_no_sequence() {
    let mut a = AssetV1::new([1u8; 32], UpdateAuthority::none(), PodStr::from_str("a"), PodStr::from_str("b"));
    assert_eq!(a.key, Key::AssetV1);
    assert_eq!(a.get_seq(), None);
    assert!(a.increment_seq().is_ok());
    assert_eq!(a.get_seq(), None);
    assert_eq!(a.seq, [0u8; 8]);
}

#[test]
fn sequence_increments_and_saturates() {
    let mut a = AssetV1::new([1u8; 32], UpdateAuthority::none(), PodStr::from_str("a"), PodStr::from_str("b"));
    a.seq_present = 1;
    a.seq = 41u64.to_le_bytes();
    a.increment_seq().unwrap();
    assert_eq!(a.get_seq(), Some(42));
    a.seq = u64::MAX.to_le_bytes();
    a.increment_seq().unwrap();
    assert_eq!(a.get_seq(), Some(u64::MAX));
}

#[test]
fn asset_bytes_round_trip() {
    let mut a = AssetV1::new([1u8; 32], UpdateAuthority::collection([2u8; 32]), PodStr::from_str("name"), PodStr::from_str("uri"));
    a.seq_present = 1;
    a.seq = 7u64.to_le_bytes();
    let b = a.to_bytes();
    assert_eq!(b.len(), ASSET_LEN);
    assert_eq!(b[0], 1);
    assert_eq!(b[33], 2);
    assert_eq!(b[66], 4);
    let back = AssetV1::from_bytes(&b).unwrap();
    assert_eq!(back.to_bytes(), b);
    assert_eq!(back.get_seq(), Some(7));
    assert_eq!(back.name.as_str(), "name");
}

#[test]
fn asset_bytes_errors() {
    let a = AssetV1::new([1u8; 32], UpdateAuthority::none(), PodStr::from_str("a"), PodStr::from_str("b"));
    let mut b = a.to_bytes();
    assert_eq!(AssetV1::from_bytes(&b[..100]).unwrap_err(), CoreError::DeserializationError);
    b[33] = 9;
    assert_eq!(AssetV1::from_bytes(&b).unwrap_err(), CoreError::InvalidAuthorityTag);
    b[0] = Key::HashedAssetV1.to_byte();
    assert_eq!(AssetV1::from_bytes(&b).unwrap_err(), CoreError::IncorrectAccountKey);
}
