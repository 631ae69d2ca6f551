use core_assets::error::CoreError;
use core_assets::registry::{Authority, PluginRegistry, PluginType};

fn empty_registry(header_end: usize, max_len: usize) -> PluginRegistry {
    PluginRegistry::new(vec![7u8; header_end], max_len).unwrap()
}

#[test]
fn insert_then_remove_restores_account_length() {
    let mut reg = empty_registry(246, 10_000);
    let payload = [9u8; 10];
    reg.insert(PluginType::Royalties, Authority::UpdateAuthority, &payload).unwrap();
    assert_eq!(reg.records.len(), 1);
    let rec = reg.locate(PluginType::Royalties).unwrap();
    assert_eq!(rec.offset, 246);
    assert_eq!(rec.length, 10);
    assert_eq!(reg.account_len(), 246 + 10);
    assert_eq!(&reg.data[246..256], &payload[..]);
    reg.remove(PluginType::Royalties).unwrap();
    assert_eq!(reg.records.len(), 0);
    assert_eq!(reg.account_len(), 246);
    assert!(reg.locate(PluginType::Royalties).is_none());
}

#[test]
fn resize_shifts_later_entry() {
    let mut reg = empty_registry(50, 10_000);
    reg.insert(PluginType::Attributes, Authority::Owner, &[1u8; 10]).unwrap();
    reg.insert(PluginType::Royalties, Authority::Owner, &[2u8; 5]).unwrap();
    assert_eq!(reg.locate(PluginType::Royalties).unwrap().offset, 60);
    reg.resize(PluginType::Attributes, &[3u8; 20]).unwrap();
    let first = reg.locate(PluginType::Attributes).unwrap();
    let later = reg.locate(PluginType::Royalties).unwrap();
    assert_eq!(first.offset, 50);
    assert_eq!(first.length, 20);
    assert_eq!(later.offset, 70);
    assert_eq!(&reg.data[50..70], &[3u8; 20][..]);
    assert_eq!(&reg.data[70..75], &[2u8; 5][..]);
    assert_eq!(reg.account_len(), 75);
}

#[test]
fn shrinking_resize_moves_later_entries_down() {
    let mut reg = empty_registry(50, 10_000);
    reg.insert(PluginType::Attributes, Authority::Owner, &[1u8; 10]).unwrap();
    reg.insert(PluginType::Royalties, Authority::Owner, &[2u8; 5]).unwrap();
    reg.resize(PluginType::Attributes, &[4u8; 3]).unwrap();
    assert_eq!(reg.locate(PluginType::Royalties).unwrap().offset, 53);
    assert_eq!(reg.account_len(), 58);
    assert_eq!(&reg.data[50..58], &[4, 4, 4, 2, 2, 2, 2, 2][..]);
}

#[test]
fn remove_middle_entry_closes_gap() {
    let mut reg = empty_registry(20, 1000);
    reg.insert(PluginType::Royalties, Authority::Owner, &[1u8; 4]).unwrap();
    reg.insert(PluginType::Attributes, Authority::Owner, &[2u8; 6]).unwrap();
    reg.insert(PluginType::Autograph, Authority::Owner, &[3u8; 2]).unwrap();
    reg.remove(PluginType::Attributes).unwrap();
    assert_eq!(reg.records.len(), 2);
    assert_eq!(reg.records[0].plugin_type, PluginType::Royalties);
    assert_eq!(reg.records[1].plugin_type, PluginType::Autograph);
    assert_eq!(reg.records[1].offset, 24);
    assert_eq!(&reg.data[20..26], &[1, 1, 1, 1, 3, 3][..]);
    assert_eq!(reg.account_len(), 26);
}

#[test]
fn duplicate_insert_is_rejected() {
    let mut reg = empty_registry(10, 1000);
    reg.insert(PluginType::Royalties, Authority::Owner, &[1u8; 4]).unwrap();
    assert_eq!(
        reg.insert(PluginType::Royalties, Authority::Owner, &[1u8; 4]),
        Err(CoreError::PluginAlreadyExists)
    );
    assert_eq!(reg.account_len(), 14);
}

#[test]
fn absent_plugin_is_not_found() {
    let mut reg = empty_registry(10, 1000);
    assert_eq!(reg.remove(PluginType::Edition), Err(CoreError::PluginNotFound));
    assert_eq!(reg.resize(PluginType::Edition, &[1]), Err(CoreError::PluginNotFound));
    assert_eq!(
        reg.set_authority(PluginType::Edition, Authority::Owner),
        Err(CoreError::PluginNotFound)
    );
    assert!(reg.authority_of(PluginType::Edition).is_none());
}

#[test]
fn growth_past_capacity_is_rejected() {
    // The stored image is the bytes, the registry discriminant, 50 bytes per
    // slot and the 8-byte slot count: 10 + 31 + 1 + 50 + 8 == 100.
    let mut reg = empty_registry(10, 100);
    assert_eq!(
        reg.insert(PluginType::Royalties, Authority::Owner, &[0u8; 32]),
        Err(CoreError::CapacityExceeded)
    );
    reg.insert(PluginType::Royalties, Authority::Owner, &[0u8; 31]).unwrap();
    assert_eq!(reg.to_image().len(), 100);
    assert_eq!(reg.resize(PluginType::Royalties, &[0u8; 32]), Err(CoreError::CapacityExceeded));
    assert_eq!(reg.locate(PluginType::Royalties).unwrap().length, 31);
    assert_eq!(
        reg.insert(PluginType::Edition, Authority::Owner, &[]),
        Err(CoreError::CapacityExceeded)
    );
    assert_eq!(PluginRegistry::new(vec![0u8; 30], 38).unwrap_err(), CoreError::CapacityExceeded);
    assert_eq!(PluginRegistry::new(vec![0u8; 5], 100).unwrap_err(), CoreError::DeserializationError);
}

#[test]
fn header_tracks_registry_offset() {
    let mut reg = empty_registry(20, 1000);
    assert_eq!(reg.data[11], 3);
    assert_eq!(&reg.data[12..20], &20u64.to_le_bytes()[..]);
    reg.insert(PluginType::Royalties, Authority::Owner, &[1u8; 6]).unwrap();
    assert_eq!(&reg.data[12..20], &26u64.to_le_bytes()[..]);
    reg.resize(PluginType::Royalties, &[1u8; 2]).unwrap();
    assert_eq!(&reg.data[12..20], &22u64.to_le_bytes()[..]);
    reg.remove(PluginType::Royalties).unwrap();
    assert_eq!(&reg.data[12..20], &20u64.to_le_bytes()[..]);
    let mut img = reg.to_image();
    img[11] = 0;
    assert_eq!(PluginRegistry::from_image(&img, 20, 1000).unwrap_err(), CoreError::IncorrectAccountKey);
    let mut img = reg.to_image();
    img[12] = 19;
    assert_eq!(PluginRegistry::from_image(&img, 20, 1000).unwrap_err(), CoreError::InvalidRegistry);
}

#[test]
fn authority_is_replaced_in_place() {
    let mut reg = empty_registry(10, 1000);
    reg.insert(PluginType::FreezeDelegate, Authority::Owner, &[0u8; 1]).unwrap();
    reg.set_authority(PluginType::FreezeDelegate, Authority::Address { address: [5u8; 32] }).unwrap();
    match reg.authority_of(PluginType::FreezeDelegate) {
        Some(Authority::Address { address }) => assert_eq!(address, [5u8; 32]),
        _ => panic!("authority not replaced"),
    }
    assert_eq!(reg.locate(PluginType::FreezeDelegate).unwrap().offset, 10);
    assert_eq!(reg.account_len(), 11);
}

#[test]
fn image_round_trips_through_parser() {
    let mut reg = empty_registry(12, 1000);
    reg.insert(PluginType::Royalties, Authority::UpdateAuthority, &[1u8; 4]).unwrap();
    reg.insert(PluginType::TransferDelegate, Authority::Address { address: [8u8; 32] }, &[2u8; 3]).unwrap();
    let img = reg.to_image();
    assert_eq!(img.len(), 12 + 7 + 1 + 2 * 50 + 8);
    assert_eq!(img[19], 4);
    assert_eq!(&img[img.len() - 8..], &2u64.to_le_bytes()[..]);
    let back = PluginRegistry::from_image(&img, 12, 1000).unwrap();
    assert_eq!(back.data, reg.data);
    assert_eq!(back.records.len(), 2);
    assert_eq!(back.records[1].offset, 16);
    assert_eq!(back.records[1].plugin_type, PluginType::TransferDelegate);
    assert_eq!(back.to_image(), img);
}

#[test]
fn corrupt_registry_image_is_rejected() {
    let mut reg = empty_registry(12, 1000);
    reg.insert(PluginType::Royalties, Authority::Owner, &[1u8; 4]).unwrap();
    let mut img = reg.to_image();
    // Move the slot's offset so that it no longer starts after the header.
    img[12 + 4 + 1 + 34] = 13;
    assert_eq!(PluginRegistry::from_image(&img, 12, 1000).unwrap_err(), CoreError::InvalidRegistry);
    assert_eq!(PluginRegistry::from_image(&[1, 2, 3], 12, 1000).unwrap_err(), CoreError::DeserializationError);
}

fn check_packing(reg: &PluginRegistry) {
    let total: usize = reg.records.iter().map(|r| r.length).sum();
    assert_eq!(reg.account_len(), reg.header_end + total);
    assert_eq!(reg.to_image().len(), reg.header_end + total + 1 + 50 * reg.records.len() + 8);
    let mut next = reg.header_end;
    for r in reg.records.iter() {
        assert_eq!(r.offset, next);
        next = r.offset + r.length;
    }
    assert_eq!(next, reg.account_len());
}

#[test]
fn packing_holds_after_every_operation() {
    let mut reg = empty_registry(30, 5000);
    check_packing(&reg);
    reg.insert(PluginType::Royalties, Authority::Owner, &[1u8; 7]).unwrap();
    check_packing(&reg);
    reg.insert(PluginType::Edition, Authority::NoAuthority, &[]).unwrap();
    check_packing(&reg);
    reg.insert(PluginType::Attributes, Authority::UpdateAuthority, &[2u8; 13]).unwrap();
    check_packing(&reg);
    reg.resize(PluginType::Royalties, &[3u8; 2]).unwrap();
    check_packing(&reg);
    reg.resize(PluginType::Edition, &[4u8; 9]).unwrap();
    check_packing(&reg);
    reg.remove(PluginType::Royalties).unwrap();
    check_packing(&reg);
    assert_eq!(reg.records[0].plugin_type, PluginType::Edition);
    assert_eq!(&reg.data[30..39], &[4u8; 9][..]);
    reg.remove(PluginType::Attributes).unwrap();
    check_packing(&reg);
    reg.remove(PluginType::Edition).unwrap();
    check_packing(&reg);
    assert_eq!(reg.account_len(), 30);
}
