use core_assets::adapters::{consulted, event_bit, oracle_account_opinion, oracle_opinion, ExternalAdapter, ExternalPluginAdapterType};
use core_assets::lifecycle::{LifecycleEvent, Opinion};

fn adapter(adapter_type: ExternalPluginAdapterType, events: u16) -> ExternalAdapter {
    ExternalAdapter { adapter_type, address: [1u8; 32], events, schema: 0, result_offset: 0 }
}

#[test]
fn event_bits_are_distinct_positions() {
    assert_eq!(event_bit(LifecycleEvent::Create), 1);
    assert_eq!(event_bit(LifecycleEvent::Transfer), 1 << 6);
    assert_eq!(event_bit(LifecycleEvent::Execute), 1 << 14);
}

#[test]
fn only_registered_opinion_adapters_are_consulted() {
    let transfer = event_bit(LifecycleEvent::Transfer);
    let burn = event_bit(LifecycleEvent::Burn);
    let adapters = vec![
        adapter(ExternalPluginAdapterType::Oracle, transfer),
        adapter(ExternalPluginAdapterType::AppData, transfer | burn),
        adapter(ExternalPluginAdapterType::LifecycleHook, burn),
        adapter(ExternalPluginAdapterType::LinkedLifecycleHook, transfer | burn),
        adapter(ExternalPluginAdapterType::DataSection, transfer),
    ];
    assert_eq!(consulted(&adapters, LifecycleEvent::Transfer), vec![0, 3]);
    assert_eq!(consulted(&adapters, LifecycleEvent::Burn), vec![2, 3]);
    assert_eq!(consulted(&adapters, LifecycleEvent::Update), Vec::<usize>::new());
    assert!(adapters[0].registered_for(LifecycleEvent::Transfer));
    assert!(!adapters[1].registered_for(LifecycleEvent::Transfer));
}

#[test]
fn oracle_result_bytes() {
    assert_eq!(oracle_opinion(0), Opinion::Approved);
    assert_eq!(oracle_opinion(1), Opinion::Rejected);
    assert_eq!(oracle_opinion(2), Opinion::Pass);
    assert_eq!(oracle_opinion(200), Opinion::Rejected);
}

#[test]
fn each_oracle_reads_its_own_result_bytes() {
    let mut near = adapter(ExternalPluginAdapterType::Oracle, 0xffff);
    let mut far = near;
    near.result_offset = 0;
    far.result_offset = 20;
    let mut account = vec![2u8; 40];
    account[6] = 0; // transfer approved for the oracle at offset 0
    account[26] = 1; // transfer rejected for the oracle at offset 20
    assert_eq!(oracle_account_opinion(&near, &account, LifecycleEvent::Transfer), Opinion::Approved);
    assert_eq!(oracle_account_opinion(&far, &account, LifecycleEvent::Transfer), Opinion::Rejected);
    assert_eq!(oracle_account_opinion(&far, &account, LifecycleEvent::Burn), Opinion::Pass);
    far.result_offset = 30;
    assert_eq!(oracle_account_opinion(&far, &account, LifecycleEvent::Execute), Opinion::Rejected);
}
