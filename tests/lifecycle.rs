use core_assets::asset::AssetV1;
use core_assets::lifecycle::{
    aggregate, base_check, evaluate, CheckResult, Decision, LifecycleEvent, Opinion,
};
use core_assets::registry::{Authority, PluginRegistry, PluginType};
use core_assets::types::PodStr;
use core_assets::update_authority::UpdateAuthority;

const OWNER: [u8; 32] = [1u8; 32];
const AUTHORITY: [u8; 32] = [2u8; 32];
const DELEGATE: [u8; 32] = [3u8; 32];

fn asset(update_authority: UpdateAuthority) -> AssetV1 {
    AssetV1::new(OWNER, update_authority, PodStr::from_str("n"), PodStr::from_str("u"))
}

fn registry_for(a: &AssetV1) -> PluginRegistry {
    let mut base = a.to_bytes();
    base.extend_from_slice(&[3u8, 0, 0, 0, 0, 0, 0, 0, 0]);
    PluginRegistry::new(base, 10_000).unwrap()
}

#[test]
fn force_reject_beats_every_approval() {
    let ops = vec![Opinion::Approved, Opinion::ForceApproved, Opinion::ForceRejected, Opinion::Approved];
    assert_eq!(aggregate(&ops), Decision::Rejected(2));
}

#[test]
fn no_opinions_deny() {
    assert_eq!(aggregate(&vec![Opinion::Pass, Opinion::Pass]), Decision::NotApproved);
    assert_eq!(aggregate(&vec![]), Decision::NotApproved);
}

#[test]
fn precedence_of_opinions() {
    assert_eq!(aggregate(&vec![Opinion::Rejected, Opinion::ForceApproved]), Decision::Approved);
    assert_eq!(aggregate(&vec![Opinion::Approved, Opinion::Pass, Opinion::Rejected, Opinion::Rejected]), Decision::Rejected(2));
    assert_eq!(aggregate(&vec![Opinion::Pass, Opinion::Approved]), Decision::Approved);
}

#[test]
fn update_without_update_authority_is_denied() {
    let a = asset(UpdateAuthority::none());
    let reg = registry_for(&a);
    let d = evaluate(&a, &reg, LifecycleEvent::Update, &OWNER, None, &vec![]);
    assert_eq!(d, Decision::NotApproved);
}

#[test]
fn update_by_update_authority_is_approved() {
    let a = asset(UpdateAuthority::address(AUTHORITY));
    let reg = registry_for(&a);
    assert_eq!(evaluate(&a, &reg, LifecycleEvent::Update, &AUTHORITY, None, &vec![]), Decision::Approved);
    assert_eq!(evaluate(&a, &reg, LifecycleEvent::Update, &OWNER, None, &vec![]), Decision::NotApproved);
}

#[test]
fn transfer_by_owner_and_frozen_asset() {
    let a = asset(UpdateAuthority::address(AUTHORITY));
    let mut reg = registry_for(&a);
    assert_eq!(evaluate(&a, &reg, LifecycleEvent::Transfer, &OWNER, None, &vec![]), Decision::Approved);
    reg.insert(PluginType::FreezeDelegate, Authority::Owner, &[1u8]).unwrap();
    assert_eq!(evaluate(&a, &reg, LifecycleEvent::Transfer, &OWNER, None, &vec![]), Decision::Rejected(1));
    reg.resize(PluginType::FreezeDelegate, &[0u8]).unwrap();
    assert_eq!(evaluate(&a, &reg, LifecycleEvent::Transfer, &OWNER, None, &vec![]), Decision::Approved);
}

#[test]
fn permanent_freeze_overrides_owner_and_delegate() {
    let a = asset(UpdateAuthority::address(AUTHORITY));
    let mut reg = registry_for(&a);
    reg.insert(PluginType::PermanentTransferDelegate, Authority::Address { address: DELEGATE }, &[]).unwrap();
    reg.insert(PluginType::PermanentFreezeDelegate, Authority::UpdateAuthority, &[1u8]).unwrap();
    let d = evaluate(&a, &reg, LifecycleEvent::Transfer, &DELEGATE, None, &vec![Opinion::Approved]);
    assert_eq!(d, Decision::Rejected(2));
}

#[test]
fn transfer_delegate_and_external_opinions() {
    let a = asset(UpdateAuthority::address(AUTHORITY));
    let mut reg = registry_for(&a);
    reg.insert(PluginType::TransferDelegate, Authority::Address { address: DELEGATE }, &[]).unwrap();
    assert_eq!(evaluate(&a, &reg, LifecycleEvent::Transfer, &DELEGATE, None, &vec![]), Decision::Approved);
    assert_eq!(
        evaluate(&a, &reg, LifecycleEvent::Transfer, &DELEGATE, None, &vec![Opinion::Rejected]),
        Decision::Rejected(2)
    );
}

#[test]
fn update_plugin_needs_the_plugin_authority() {
    let a = asset(UpdateAuthority::address(AUTHORITY));
    let mut reg = registry_for(&a);
    reg.insert(PluginType::Attributes, Authority::Address { address: DELEGATE }, &[]).unwrap();
    assert_eq!(
        evaluate(&a, &reg, LifecycleEvent::UpdatePlugin, &DELEGATE, Some(PluginType::Attributes), &vec![]),
        Decision::Approved
    );
    assert_eq!(
        evaluate(&a, &reg, LifecycleEvent::UpdatePlugin, &AUTHORITY, Some(PluginType::Attributes), &vec![]),
        Decision::NotApproved
    );
}

#[test]
fn immutable_metadata_blocks_update() {
    let a = asset(UpdateAuthority::address(AUTHORITY));
    let mut reg = registry_for(&a);
    reg.insert(PluginType::ImmutableMetadata, Authority::NoAuthority, &[]).unwrap();
    assert_eq!(evaluate(&a, &reg, LifecycleEvent::Update, &AUTHORITY, None, &vec![]), Decision::Rejected(1));
}

#[test]
fn base_checks_by_event() {
    assert_eq!(base_check(LifecycleEvent::UpdatePlugin), CheckResult::NoOpinion);
    assert_eq!(base_check(LifecycleEvent::UpdateExternalPluginAdapter), CheckResult::NoOpinion);
    assert_eq!(base_check(LifecycleEvent::Transfer), CheckResult::CanApprove);
    assert_eq!(AssetV1::check_update(), CheckResult::CanApprove);
    assert_eq!(AssetV1::check_update_plugin(), CheckResult::NoOpinion);
    assert_eq!(AssetV1::check_execute(), CheckResult::CanApprove);
}

#[test]
fn immutable_plugin_cannot_be_removed_or_reassigned() {
    let a = asset(UpdateAuthority::address(AUTHORITY));
    let mut reg = registry_for(&a);
    reg.insert(PluginType::Attributes, Authority::NoAuthority, &[]).unwrap();
    for e in [
        LifecycleEvent::RemovePlugin,
        LifecycleEvent::UpdatePlugin,
        LifecycleEvent::ApprovePluginAuthority,
        LifecycleEvent::RevokePluginAuthority,
    ] {
        assert_eq!(
            evaluate(&a, &reg, e, &AUTHORITY, Some(PluginType::Attributes), &vec![Opinion::ForceApproved]),
            Decision::Rejected(1)
        );
    }
    assert_eq!(
        evaluate(&a, &reg, LifecycleEvent::RemovePlugin, &AUTHORITY, Some(PluginType::Royalties), &vec![]),
        Decision::Approved
    );
}
