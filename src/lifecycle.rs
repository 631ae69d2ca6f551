//! Lifecycle permission engine: opinions of the base object, of every
//! attached plugin and of every external adapter, folded into one decision.

use vstd::prelude::*;
use pinocchio::pubkey::Pubkey;
use crate::asset::AssetV1;
use crate::registry::{Authority, PluginRegistry, PluginType, RegistryRecord, record_end, lemma_registry_ordered};

verus! {

/// Whether a participant takes part in deciding an event.
#[derive(Clone, Copy, Debug, PartialEq, Eq, Structural)]
pub enum CheckResult {
    /// The participant has nothing to say about the event.
    NoOpinion,
    /// The participant may approve the event.
    CanApprove,
    /// The participant may reject the event.
    CanReject,
    /// The participant may approve or reject, overriding the others.
    All,
}

/// A state-changing operation on an asset.
#[derive(Clone, Copy, Debug, PartialEq, Eq, Structural)]
pub enum LifecycleEvent {
    Create,
    AddPlugin,
    RemovePlugin,
    UpdatePlugin,
    ApprovePluginAuthority,
    RevokePluginAuthority,
    Transfer,
    Burn,
    Update,
    Compress,
    Decompress,
    AddExternalPluginAdapter,
    RemoveExternalPluginAdapter,
    UpdateExternalPluginAdapter,
    Execute,
}

/// One participant's vote on an event.
#[derive(Clone, Copy, Debug, PartialEq, Eq, Structural)]
pub enum Opinion {
    /// No opinion.
    Pass,
    Approved,
    Rejected,
    /// Approves, overriding ordinary rejections.
    ForceApproved,
    /// Rejects, overriding every approval.
    ForceRejected,
}

/// The outcome of an evaluation.
#[derive(Clone, Copy, Debug, PartialEq, Eq, Structural)]
pub enum Decision {
    Approved,
    /// Denied by the participant at this position.
    Rejected(usize),
    /// Denied because no participant approved.
    NotApproved,
}

pub open spec fn holds_opinion(s: Seq<Opinion>, o: Opinion) -> bool {
    exists|i: int| 0 <= i < s.len() && #[trigger] s[i] == o
}

/// The first position holding `o`.
pub open spec fn first_with(s: Seq<Opinion>, o: Opinion) -> int {
    choose|i: int|
        0 <= i < s.len() && #[trigger] s[i] == o && forall|j: int| 0 <= j < i ==> s[j] != o
}

/// Aggregation with precedence: a forced rejection wins over everything, a
/// forced approval over ordinary opinions, a rejection over approvals, and
/// with no approval at all the event is denied.
pub open spec fn aggregate_spec(s: Seq<Opinion>) -> Decision {
    if holds_opinion(s, Opinion::ForceRejected) {
        Decision::Rejected(first_with(s, Opinion::ForceRejected) as usize)
    } else if holds_opinion(s, Opinion::ForceApproved) {
        Decision::Approved
    } else if holds_opinion(s, Opinion::Rejected) {
        Decision::Rejected(first_with(s, Opinion::Rejected) as usize)
    } else if holds_opinion(s, Opinion::Approved) {
        Decision::Approved
    } else {
        Decision::NotApproved
    }
}

/// Where `o` occurs, `first_with` finds an occurrence with none before it.
proof fn lemma_first_exists(s: Seq<Opinion>, o: Opinion, i: int)
    requires
        0 <= i < s.len(),
        s[i] == o,
    ensures
        ({
            let k = first_with(s, o);
            0 <= k < s.len() && s[k] == o && forall|j: int| 0 <= j < k ==> s[j] != o
        }),
    decreases i,
{
    if exists|j: int| 0 <= j < i && s[j] == o {
        let j = choose|j: int| 0 <= j < i && s[j] == o;
        lemma_first_exists(s, o, j);
    } else {
        assert(0 <= i < s.len() && s[i] == o && forall|j: int| 0 <= j < i ==> s[j] != o);
    }
}

proof fn lemma_first_with(s: Seq<Opinion>, o: Opinion, i: int)
    requires
        0 <= i < s.len(),
        s[i] == o,
        forall|j: int| 0 <= j < i ==> s[j] != o,
    ensures
        first_with(s, o) == i,
{
    lemma_first_exists(s, o, i);
    let k = first_with(s, o);
    if k < i {
        assert(s[k] != o);
    } else if k > i {
        assert(s[i] != o);
    }
}

/// Folds the opinions left to right into one decision.
pub fn aggregate(opinions: &Vec<Opinion>) -> (r: Decision)
    ensures
        r == aggregate_spec(opinions@),
{
    let mut force_reject: Option<usize> = None;
    let mut force_approve = false;
    let mut reject: Option<usize> = None;
    let mut approve = false;
    let mut i: usize = 0;
    let ghost s = opinions@;
    while i < opinions.len()
        invariant
            s == opinions@,
            i <= s.len(),
            force_reject is None <==> !(exists|j: int| 0 <= j < i && #[trigger] s[j] == Opinion::ForceRejected),
            force_reject matches Some(k) ==> k < i && s[k as int] == Opinion::ForceRejected
                && forall|j: int| 0 <= j < k ==> s[j] != Opinion::ForceRejected,
            force_approve <==> exists|j: int| 0 <= j < i && #[trigger] s[j] == Opinion::ForceApproved,
            reject is None <==> !(exists|j: int| 0 <= j < i && #[trigger] s[j] == Opinion::Rejected),
            reject matches Some(k) ==> k < i && s[k as int] == Opinion::Rejected
                && forall|j: int| 0 <= j < k ==> s[j] != Opinion::Rejected,
            approve <==> exists|j: int| 0 <= j < i && #[trigger] s[j] == Opinion::Approved,
        decreases s.len() - i,
    {
        let o = opinions[i];
        match o {
            Opinion::ForceRejected => {
                if force_reject.is_none() {
                    force_reject = Some(i);
                }
            },
            Opinion::ForceApproved => {
                force_approve = true;
            },
            Opinion::Rejected => {
                if reject.is_none() {
                    reject = Some(i);
                }
            },
            Opinion::Approved => {
                approve = true;
            },
            Opinion::Pass => {},
        }
        i = i + 1;
    }
    if let Some(k) = force_reject {
        proof {
            lemma_first_with(s, Opinion::ForceRejected, k as int);
        }
        Decision::Rejected(k)
    } else if force_approve {
        Decision::Approved
    } else if let Some(k) = reject {
        proof {
            lemma_first_with(s, Opinion::Rejected, k as int);
        }
        Decision::Rejected(k)
    } else if approve {
        Decision::Approved
    } else {
        Decision::NotApproved
    }
}

/// A forced rejection from any one participant denies the event, whatever the
/// others say.
pub proof fn lemma_force_reject_denies(s: Seq<Opinion>, i: int)
    requires
        0 <= i < s.len() <= usize::MAX,
        s[i] == Opinion::ForceRejected,
    ensures
        aggregate_spec(s) is Rejected,
        s[aggregate_spec(s)->Rejected_0 as int] == Opinion::ForceRejected,
{
    assert(holds_opinion(s, Opinion::ForceRejected));
    lemma_first_exists(s, Opinion::ForceRejected, i);
}

/// With no participant holding any opinion the event is denied.
pub proof fn lemma_no_opinion_denies(s: Seq<Opinion>)
    requires
        forall|i: int| 0 <= i < s.len() ==> s[i] == Opinion::Pass,
    ensures
        aggregate_spec(s) == Decision::NotApproved,
{
    assert(!holds_opinion(s, Opinion::ForceRejected));
    assert(!holds_opinion(s, Opinion::ForceApproved));
    assert(!holds_opinion(s, Opinion::Rejected));
    assert(!holds_opinion(s, Opinion::Approved));
}

/// Whether two keys are the same.
pub fn keys_equal(a: &Pubkey, b: &Pubkey) -> (r: bool)
    ensures
        r == (a@ == b@),
{
    let mut i: usize = 0;
    while i < 32
        invariant
            i <= 32,
            a@.len() == 32 && b@.len() == 32,
            forall|j: int| 0 <= j < i ==> a@[j] == b@[j],
        decreases 32 - i,
    {
        if a[i] != b[i] {
            return false;
        }
        i = i + 1;
    }
    assert(a@ =~= b@);
    true
}

/// Events the owner alone may approve on the base object; the rest need the
/// update authority.
pub open spec fn owner_event(e: LifecycleEvent) -> bool {
    match e {
        LifecycleEvent::Transfer | LifecycleEvent::Burn | LifecycleEvent::Compress
        | LifecycleEvent::Decompress | LifecycleEvent::Execute => true,
        _ => false,
    }
}

/// The base object's hard-coded stance on each event.
pub open spec fn base_check_spec(e: LifecycleEvent) -> CheckResult {
    match e {
        LifecycleEvent::UpdatePlugin | LifecycleEvent::UpdateExternalPluginAdapter => CheckResult::NoOpinion,
        _ => CheckResult::CanApprove,
    }
}

/// The base object's stance on an event.
pub fn base_check(e: LifecycleEvent) -> (r: CheckResult)
    ensures
        r == base_check_spec(e),
{
    match e {
        LifecycleEvent::Create => AssetV1::check_create(),
        LifecycleEvent::AddPlugin => AssetV1::check_add_plugin(),
        LifecycleEvent::RemovePlugin => AssetV1::check_remove_plugin(),
        LifecycleEvent::UpdatePlugin => AssetV1::check_update_plugin(),
        LifecycleEvent::ApprovePluginAuthority => AssetV1::check_approve_plugin_authority(),
        LifecycleEvent::RevokePluginAuthority => AssetV1::check_revoke_plugin_authority(),
        LifecycleEvent::Transfer => AssetV1::check_transfer(),
        LifecycleEvent::Burn => AssetV1::check_burn(),
        LifecycleEvent::Update => AssetV1::check_update(),
        LifecycleEvent::Compress => AssetV1::check_compress(),
        LifecycleEvent::Decompress => AssetV1::check_decompress(),
        LifecycleEvent::AddExternalPluginAdapter => AssetV1::check_add_external_plugin_adapter(),
        LifecycleEvent::RemoveExternalPluginAdapter => AssetV1::check_remove_external_plugin_adapter(),
        LifecycleEvent::UpdateExternalPluginAdapter => AssetV1::check_update_external_plugin_adapter(),
        LifecycleEvent::Execute => AssetV1::check_execute(),
    }
}

/// The actor is the asset's update authority; a tag without a key has no signer.
pub open spec fn is_update_authority(a: AssetV1, actor: Seq<u8>) -> bool {
    a.update_authority.has_key() && actor == a.update_authority.payload@
}

/// The base object approves when it can and the actor is the authority the event needs.
pub open spec fn base_opinion_spec(a: AssetV1, e: LifecycleEvent, actor: Seq<u8>) -> Opinion {
    if base_check_spec(e) == CheckResult::CanApprove && (if owner_event(e) {
        actor == a.owner@
    } else {
        is_update_authority(a, actor)
    }) {
        Opinion::Approved
    } else {
        Opinion::Pass
    }
}

pub fn base_opinion(asset: &AssetV1, e: LifecycleEvent, actor: &Pubkey) -> (r: Opinion)
    ensures
        r == base_opinion_spec(*asset, e, actor@),
{
    if base_check(e) != CheckResult::CanApprove {
        return Opinion::Pass;
    }
    let is_owner_event = match e {
        LifecycleEvent::Transfer | LifecycleEvent::Burn | LifecycleEvent::Compress
        | LifecycleEvent::Decompress | LifecycleEvent::Execute => true,
        _ => false,
    };
    let ok = if is_owner_event {
        keys_equal(actor, &asset.owner)
    } else {
        asset.update_authority.is_some() && keys_equal(actor, &asset.update_authority.payload)
    };
    if ok {
        Opinion::Approved
    } else {
        Opinion::Pass
    }
}

/// The actor holds a plugin's authority; `NoAuthority` matches nobody.
pub open spec fn authority_matches_spec(auth: Authority, a: AssetV1, actor: Seq<u8>) -> bool {
    match auth {
        Authority::NoAuthority => false,
        Authority::Owner => actor == a.owner@,
        Authority::UpdateAuthority => is_update_authority(a, actor),
        Authority::Address { address } => actor == address@,
    }
}

pub fn authority_matches(auth: &Authority, asset: &AssetV1, actor: &Pubkey) -> (r: bool)
    ensures
        r == authority_matches_spec(*auth, *asset, actor@),
{
    match auth {
        Authority::NoAuthority => false,
        Authority::Owner => keys_equal(actor, &asset.owner),
        Authority::UpdateAuthority => asset.update_authority.is_some() && keys_equal(
            actor,
            &asset.update_authority.payload,
        ),
        Authority::Address { address } => keys_equal(actor, address),
    }
}

/// A freeze plugin's payload starts with a non-zero byte while frozen.
pub open spec fn frozen(payload: Seq<u8>) -> bool {
    payload.len() > 0 && payload[0] != 0
}

/// Events that act on one plugin, which its own authority may approve; a
/// plugin without authority is immutable and vetoes them.
pub open spec fn plugin_event(e: LifecycleEvent) -> bool {
    match e {
        LifecycleEvent::UpdatePlugin | LifecycleEvent::RemovePlugin
        | LifecycleEvent::ApprovePluginAuthority | LifecycleEvent::RevokePluginAuthority => true,
        _ => false,
    }
}

/// A plugin's opinion on an event, given its payload and the actor.
pub open spec fn plugin_opinion_spec(
    rec: RegistryRecord,
    payload: Seq<u8>,
    a: AssetV1,
    e: LifecycleEvent,
    actor: Seq<u8>,
    target: Option<PluginType>,
) -> Opinion {
    let holder = authority_matches_spec(rec.authority, a, actor);
    if plugin_event(e) {
        if target != Some(rec.plugin_type) {
            Opinion::Pass
        } else if rec.authority is NoAuthority {
            Opinion::ForceRejected
        } else if holder {
            Opinion::Approved
        } else {
            Opinion::Pass
        }
    } else {
        match rec.plugin_type {
            PluginType::FreezeDelegate => if (e == LifecycleEvent::Transfer || e
                == LifecycleEvent::Burn) && frozen(payload) {
                Opinion::Rejected
            } else {
                Opinion::Pass
            },
            PluginType::PermanentFreezeDelegate => if (e == LifecycleEvent::Transfer || e
                == LifecycleEvent::Burn) && frozen(payload) {
                Opinion::ForceRejected
            } else {
                Opinion::Pass
            },
            PluginType::FreezeExecute => if e == LifecycleEvent::Execute && frozen(payload) {
                Opinion::Rejected
            } else {
                Opinion::Pass
            },
            PluginType::PermanentFreezeExecute => if e == LifecycleEvent::Execute && frozen(
                payload,
            ) {
                Opinion::ForceRejected
            } else {
                Opinion::Pass
            },
            PluginType::TransferDelegate => if e == LifecycleEvent::Transfer && holder {
                Opinion::Approved
            } else {
                Opinion::Pass
            },
            PluginType::PermanentTransferDelegate => if e == LifecycleEvent::Transfer && holder {
                Opinion::ForceApproved
            } else {
                Opinion::Pass
            },
            PluginType::BurnDelegate => if e == LifecycleEvent::Burn && holder {
                Opinion::Approved
            } else {
                Opinion::Pass
            },
            PluginType::PermanentBurnDelegate => if e == LifecycleEvent::Burn && holder {
                Opinion::ForceApproved
            } else {
                Opinion::Pass
            },
            PluginType::UpdateDelegate => if e == LifecycleEvent::Update && holder {
                Opinion::Approved
            } else {
                Opinion::Pass
            },
            PluginType::ImmutableMetadata => if e == LifecycleEvent::Update {
                Opinion::Rejected
            } else {
                Opinion::Pass
            },
            PluginType::AddBlocker => if e == LifecycleEvent::AddPlugin {
                Opinion::Rejected
            } else {
                Opinion::Pass
            },
            _ => Opinion::Pass,
        }
    }
}

pub fn plugin_opinion(
    rec: &RegistryRecord,
    payload_frozen: bool,
    asset: &AssetV1,
    e: LifecycleEvent,
    actor: &Pubkey,
    target: Option<PluginType>,
) -> (r: Opinion)
    ensures
        forall|p: Seq<u8>|
            frozen(p) == payload_frozen ==> r == #[trigger] plugin_opinion_spec(
                *rec,
                p,
                *asset,
                e,
                actor@,
                target,
            ),
{
    let holder = authority_matches(&rec.authority, asset, actor);
    let is_plugin_event = match e {
        LifecycleEvent::UpdatePlugin | LifecycleEvent::RemovePlugin
        | LifecycleEvent::ApprovePluginAuthority | LifecycleEvent::RevokePluginAuthority => true,
        _ => false,
    };
    if is_plugin_event {
        let targeted = match target {
            Some(t) => t == rec.plugin_type,
            None => false,
        };
        let immutable = match rec.authority {
            Authority::NoAuthority => true,
            _ => false,
        };
        return if !targeted {
            Opinion::Pass
        } else if immutable {
            Opinion::ForceRejected
        } else if holder {
            Opinion::Approved
        } else {
            Opinion::Pass
        };
    }
    let moves = e == LifecycleEvent::Transfer || e == LifecycleEvent::Burn;
    match rec.plugin_type {
        PluginType::FreezeDelegate => if moves && payload_frozen { Opinion::Rejected } else { Opinion::Pass },
        PluginType::PermanentFreezeDelegate => if moves && payload_frozen {
            Opinion::ForceRejected
        } else {
            Opinion::Pass
        },
        PluginType::FreezeExecute => if e == LifecycleEvent::Execute && payload_frozen {
            Opinion::Rejected
        } else {
            Opinion::Pass
        },
        PluginType::PermanentFreezeExecute => if e == LifecycleEvent::Execute && payload_frozen {
            Opinion::ForceRejected
        } else {
            Opinion::Pass
        },
        PluginType::TransferDelegate => if e == LifecycleEvent::Transfer && holder {
            Opinion::Approved
        } else {
            Opinion::Pass
        },
        PluginType::PermanentTransferDelegate => if e == LifecycleEvent::Transfer && holder {
            Opinion::ForceApproved
        } else {
            Opinion::Pass
        },
        PluginType::BurnDelegate => if e == LifecycleEvent::Burn && holder {
            Opinion::Approved
        } else {
            Opinion::Pass
        },
        PluginType::PermanentBurnDelegate => if e == LifecycleEvent::Burn && holder {
            Opinion::ForceApproved
        } else {
            Opinion::Pass
        },
        PluginType::UpdateDelegate => if e == LifecycleEvent::Update && holder {
            Opinion::Approved
        } else {
            Opinion::Pass
        },
        PluginType::ImmutableMetadata => if e == LifecycleEvent::Update {
            Opinion::Rejected
        } else {
            Opinion::Pass
        },
        PluginType::AddBlocker => if e == LifecycleEvent::AddPlugin {
            Opinion::Rejected
        } else {
            Opinion::Pass
        },
        _ => Opinion::Pass,
    }
}

/// Every participant's opinion, in order: the base object, each plugin in
/// registry order, then each external adapter.
pub open spec fn participant_opinions(
    a: AssetV1,
    reg: PluginRegistry,
    e: LifecycleEvent,
    actor: Seq<u8>,
    target: Option<PluginType>,
    external: Seq<Opinion>,
) -> Seq<Opinion> {
    seq![base_opinion_spec(a, e, actor)] + Seq::new(
        reg.records@.len(),
        |i: int| plugin_opinion_spec(reg.records@[i], reg.payload(i), a, e, actor, target),
    ) + external
}

/// Polls the base object, every plugin and the external adapters' opinions
/// (obtained by the caller) and aggregates them into one decision.
pub fn evaluate(
    asset: &AssetV1,
    registry: &PluginRegistry,
    e: LifecycleEvent,
    actor: &Pubkey,
    target: Option<PluginType>,
    external: &Vec<Opinion>,
) -> (r: Decision)
    requires
        registry.wf(),
        1 + registry.records@.len() + external@.len() <= usize::MAX,
    ensures
        r == aggregate_spec(participant_opinions(*asset, *registry, e, actor@, target, external@)),
{
    let ghost expected = participant_opinions(*asset, *registry, e, actor@, target, external@);
    proof {
        lemma_registry_ordered(registry);
    }
    let mut opinions: Vec<Opinion> = Vec::new();
    opinions.push(base_opinion(asset, e, actor));
    let n = registry.records.len();
    let mut i: usize = 0;
    while i < n
        invariant
            registry.wf(),
            n == registry.records@.len(),
            i <= n,
            1 + n + external@.len() <= usize::MAX,
            expected == participant_opinions(*asset, *registry, e, actor@, target, external@),
            opinions@.len() == 1 + i,
            forall|k: int| 0 <= k < opinions@.len() ==> #[trigger] opinions@[k] == expected[k],
            forall|k: int|
                0 <= k < n ==> registry.header_end <= (#[trigger] registry.records@[k]).offset
                    && record_end(registry.records@[k]) <= registry.data@.len(),
        decreases n - i,
    {
        let rec = &registry.records[i];
        let is_frozen = rec.length > 0 && registry.data[rec.offset] != 0;
        proof {
            let p = registry.payload(i as int);
            assert(frozen(p) == is_frozen);
        }
        opinions.push(plugin_opinion(rec, is_frozen, asset, e, actor, target));
        i = i + 1;
    }
    let mut k: usize = 0;
    while k < external.len()
        invariant
            i == n,
            k <= external@.len(),
            1 + n + external@.len() <= usize::MAX,
            expected == participant_opinions(*asset, *registry, e, actor@, target, external@),
            expected.len() == 1 + n + external@.len(),
            opinions@.len() == 1 + n + k,
            forall|j: int| 0 <= j < opinions@.len() ==> #[trigger] opinions@[j] == expected[j],
        decreases external@.len() - k,
    {
        opinions.push(external[k]);
        k = k + 1;
    }
    assert(opinions@ =~= expected);
    aggregate(&opinions)
}

} // verus!
