use core_assets::asset::AssetV1;
use core_assets::compression::{compress, decompress, decompress_with_hash, ASSET_HEADER_END};
use core_assets::error::CoreError;
use core_assets::lifecycle::Opinion;
use core_assets::registry::{Authority, PluginRegistry, PluginType};
use core_assets::types::{Key, PodStr};
use core_assets::update_authority::UpdateAuthority;
use tiny_keccak::{Hasher, Keccak};

const OWNER: [u8; 32] = [1u8; 32];

fn keccak(b: &[u8]) -> [u8; 32] {
    let mut h = Keccak::v256();
    h.update(b);
    let mut out = [0u8; 32];
    h.finalize(&mut out);
    out
}

fn live_asset() -> PluginRegistry {
    let mut a = AssetV1::new(OWNER, UpdateAuthority::collection([9u8; 32]), PodStr::from_str("n"), PodStr::from_str("u"));
    a.seq_present = 1;
    a.seq = 5u64.to_le_bytes();
    let mut base = a.to_bytes();
    base.extend_from_slice(&[3u8, 0, 0, 0, 0, 0, 0, 0, 0]);
    assert_eq!(base.len(), ASSET_HEADER_END);
    assert_eq!(base.len(), 246);
    let mut reg = PluginRegistry::new(base, 10_000).unwrap();
    reg.insert(PluginType::Attributes, Authority::UpdateAuthority, &[1, 2, 3]).unwrap();
    reg.insert(PluginType::Royalties, Authority::Owner, &[4u8; 12]).unwrap();
    reg
}

#[test]
fn compress_then_decompress_round_trips() {
    let reg = live_asset();
    let c = compress(&reg, &OWNER, &vec![]).unwrap();
    assert_eq!(c.key, Key::HashedAssetV1);
    assert_eq!(c.collection, [9u8; 32]);
    assert_eq!(c.seq, 5);
    let proof = reg.to_image();
    assert_eq!(c.hash, keccak(&proof));
    assert_ne!(&c.hash[..], &proof[..32]);
    let (a, back) = decompress(&c, &proof, 10_000, &OWNER, &vec![]).unwrap();
    assert_eq!(a.to_bytes(), reg.data[..237].to_vec());
    assert_eq!(back.data, reg.data);
    assert_eq!(back.to_image(), proof);
    assert_eq!(back.records.len(), 2);
    assert_eq!(back.locate(PluginType::Royalties).unwrap().offset, ASSET_HEADER_END + 3);
}

#[test]
fn flipped_bit_is_rejected() {
    let reg = live_asset();
    let c = compress(&reg, &OWNER, &vec![]).unwrap();
    let proof = reg.to_image();
    for i in [0usize, 40, 240, proof.len() - 1] {
        let mut bad = proof.clone();
        bad[i] ^= 0x10;
        assert_eq!(decompress(&c, &bad, 10_000, &OWNER, &vec![]).unwrap_err(), CoreError::HashMismatch);
    }
}

#[test]
fn compress_needs_approval() {
    let reg = live_asset();
    assert_eq!(compress(&reg, &[7u8; 32], &vec![]).unwrap_err(), CoreError::NotApproved);
    // Base, two plugins, then the external opinion at position three.
    assert_eq!(compress(&reg, &OWNER, &vec![Opinion::ForceRejected]).unwrap_err(), CoreError::PermissionDenied(3));
    assert_eq!(compress(&reg, &OWNER, &vec![Opinion::Rejected, Opinion::ForceApproved]).map(|c| c.seq), Ok(5));
}

#[test]
fn decompress_needs_approval_on_rebuilt_asset() {
    let reg = live_asset();
    let c = compress(&reg, &OWNER, &vec![]).unwrap();
    let proof = reg.to_image();
    assert_eq!(decompress(&c, &proof, 10_000, &[7u8; 32], &vec![]).unwrap_err(), CoreError::NotApproved);
    assert_eq!(
        decompress(&c, &proof, 10_000, &OWNER, &vec![Opinion::Pass, Opinion::Rejected]).unwrap_err(),
        CoreError::PermissionDenied(4)
    );
}

#[test]
fn decompress_with_given_digest() {
    let reg = live_asset();
    let c = compress(&reg, &OWNER, &vec![]).unwrap();
    let proof = reg.to_image();
    assert!(decompress_with_hash(&c, &proof, &c.hash, 10_000, &OWNER, &vec![]).is_ok());
    assert_eq!(
        decompress_with_hash(&c, &proof, &[0u8; 32], 10_000, &OWNER, &vec![]).unwrap_err(),
        CoreError::HashMismatch
    );
    assert_eq!(
        decompress_with_hash(&c, &proof[..10], &c.hash, 10_000, &OWNER, &vec![]).unwrap_err(),
        CoreError::DeserializationError
    );
}
