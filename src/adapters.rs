//! External plugin adapters: records that point at state or programs outside
//! the asset and that, for the events they registered for, add an opinion.

use vstd::prelude::*;
use pinocchio::pubkey::Pubkey;
use crate::lifecycle::{LifecycleEvent, Opinion};

verus! {

/// The kinds of external adapters.
#[derive(Clone, Copy, Debug, PartialEq, Eq, Structural)]
pub enum ExternalPluginAdapterType {
    /// Calls an external program for an opinion.
    LifecycleHook,
    /// Reads an opinion from an external account.
    Oracle,
    /// Opaque data written by an external authority.
    AppData,
    /// A reference to a lifecycle hook shared by many assets.
    LinkedLifecycleHook,
    /// A reference to app data shared by many assets.
    LinkedAppData,
    /// Data stored for a linked app data adapter.
    DataSection,
}

/// An adapter record: its kind, the external account or program it refers to,
/// the events it registered for (one bit each), its data schema, and for an
/// oracle where in its account the result bytes start (one byte per event, in
/// event order).
#[derive(Clone, Copy, Debug)]
pub struct ExternalAdapter {
    pub adapter_type: ExternalPluginAdapterType,
    pub address: Pubkey,
    pub events: u16,
    pub schema: u8,
    pub result_offset: usize,
}

/// The bit position of an event in an adapter's event mask.
pub open spec fn event_index(e: LifecycleEvent) -> u16 {
    match e {
        LifecycleEvent::Create => 0,
        LifecycleEvent::AddPlugin => 1,
        LifecycleEvent::RemovePlugin => 2,
        LifecycleEvent::UpdatePlugin => 3,
        LifecycleEvent::ApprovePluginAuthority => 4,
        LifecycleEvent::RevokePluginAuthority => 5,
        LifecycleEvent::Transfer => 6,
        LifecycleEvent::Burn => 7,
        LifecycleEvent::Update => 8,
        LifecycleEvent::Compress => 9,
        LifecycleEvent::Decompress => 10,
        LifecycleEvent::AddExternalPluginAdapter => 11,
        LifecycleEvent::RemoveExternalPluginAdapter => 12,
        LifecycleEvent::UpdateExternalPluginAdapter => 13,
        LifecycleEvent::Execute => 14,
    }
}

/// The mask bit of an event.
pub fn event_bit(e: LifecycleEvent) -> (r: u16)
    ensures
        r == 1u16 << event_index(e),
{
    let i: u16 = match e {
        LifecycleEvent::Create => 0,
        LifecycleEvent::AddPlugin => 1,
        LifecycleEvent::RemovePlugin => 2,
        LifecycleEvent::UpdatePlugin => 3,
        LifecycleEvent::ApprovePluginAuthority => 4,
        LifecycleEvent::RevokePluginAuthority => 5,
        LifecycleEvent::Transfer => 6,
        LifecycleEvent::Burn => 7,
        LifecycleEvent::Update => 8,
        LifecycleEvent::Compress => 9,
        LifecycleEvent::Decompress => 10,
        LifecycleEvent::AddExternalPluginAdapter => 11,
        LifecycleEvent::RemoveExternalPluginAdapter => 12,
        LifecycleEvent::UpdateExternalPluginAdapter => 13,
        LifecycleEvent::Execute => 14,
    };
    1u16 << i
}

/// Kinds that give opinions; data adapters only hold data.
pub open spec fn gives_opinions(t: ExternalPluginAdapterType) -> bool {
    match t {
        ExternalPluginAdapterType::LifecycleHook | ExternalPluginAdapterType::Oracle
        | ExternalPluginAdapterType::LinkedLifecycleHook => true,
        _ => false,
    }
}

/// The adapter must be consulted on the event.
pub open spec fn registered_spec(a: ExternalAdapter, e: LifecycleEvent) -> bool {
    gives_opinions(a.adapter_type) && a.events & (1u16 << event_index(e)) != 0
}

impl ExternalAdapter {
    /// Whether this adapter must be consulted on the event.
    pub fn registered_for(&self, e: LifecycleEvent) -> (r: bool)
        ensures
            r == registered_spec(*self, e),
    {
        let opinions = match self.adapter_type {
            ExternalPluginAdapterType::LifecycleHook | ExternalPluginAdapterType::Oracle
            | ExternalPluginAdapterType::LinkedLifecycleHook => true,
            _ => false,
        };
        opinions && self.events & event_bit(e) != 0
    }
}

/// Positions of the adapters to consult on an event, in order.
pub open spec fn consulted_spec(s: Seq<ExternalAdapter>, e: LifecycleEvent) -> Seq<usize>
    decreases s.len(),
{
    if s.len() == 0 {
        Seq::empty()
    } else if registered_spec(s.last(), e) {
        consulted_spec(s.drop_last(), e).push((s.len() - 1) as usize)
    } else {
        consulted_spec(s.drop_last(), e)
    }
}

/// The adapters to consult on an event, by position, in registry order.
pub fn consulted(adapters: &Vec<ExternalAdapter>, e: LifecycleEvent) -> (r: Vec<usize>)
    ensures
        r@ == consulted_spec(adapters@, e),
{
    let mut r: Vec<usize> = Vec::new();
    let mut i: usize = 0;
    while i < adapters.len()
        invariant
            i <= adapters@.len(),
            r@ == consulted_spec(adapters@.subrange(0, i as int), e),
        decreases adapters@.len() - i,
    {
        let ghost before = adapters@.subrange(0, i as int);
        let ghost after = adapters@.subrange(0, i + 1);
        assert(after.drop_last() =~= before);
        if adapters[i].registered_for(e) {
            r.push(i);
        }
        i = i + 1;
    }
    assert(adapters@.subrange(0, i as int) =~= adapters@);
    r
}

/// How an oracle's result byte reads: approve, reject, or no opinion; any
/// other byte rejects.
pub open spec fn oracle_opinion_spec(b: u8) -> Opinion {
    if b == 0 {
        Opinion::Approved
    } else if b == 2 {
        Opinion::Pass
    } else {
        Opinion::Rejected
    }
}

/// Reads the opinion an oracle account holds for an event.
pub fn oracle_opinion(b: u8) -> (r: Opinion)
    ensures
        r == oracle_opinion_spec(b),
{
    if b == 0 {
        Opinion::Approved
    } else if b == 2 {
        Opinion::Pass
    } else {
        Opinion::Rejected
    }
}

/// An oracle's opinion on an event, read from its account's bytes at the
/// oracle's result offset; a missing byte rejects.
pub open spec fn oracle_account_opinion_spec(
    a: ExternalAdapter,
    account: Seq<u8>,
    e: LifecycleEvent,
) -> Opinion {
    let i = a.result_offset + event_index(e);
    if i < account.len() {
        oracle_opinion_spec(account[i])
    } else {
        Opinion::Rejected
    }
}

/// Reads the opinion an oracle's account gives on an event.
pub fn oracle_account_opinion(adapter: &ExternalAdapter, account: &[u8], e: LifecycleEvent) -> (r:
    Opinion)
    ensures
        r == oracle_account_opinion_spec(*adapter, account@, e),
{
    let bit: u16 = match e {
        LifecycleEvent::Create => 0,
        LifecycleEvent::AddPlugin => 1,
        LifecycleEvent::RemovePlugin => 2,
        LifecycleEvent::UpdatePlugin => 3,
        LifecycleEvent::ApprovePluginAuthority => 4,
        LifecycleEvent::RevokePluginAuthority => 5,
        LifecycleEvent::Transfer => 6,
        LifecycleEvent::Burn => 7,
        LifecycleEvent::Update => 8,
        LifecycleEvent::Compress => 9,
        LifecycleEvent::Decompress => 10,
        LifecycleEvent::AddExternalPluginAdapter => 11,
        LifecycleEvent::RemoveExternalPluginAdapter => 12,
        LifecycleEvent::UpdateExternalPluginAdapter => 13,
        LifecycleEvent::Execute => 14,
    };
    let len = account.len();
    if adapter.result_offset >= len || (bit as usize) >= len - adapter.result_offset {
        return Opinion::Rejected;
    }
    oracle_opinion(account[adapter.result_offset + bit as usize])
}

} // verus!
