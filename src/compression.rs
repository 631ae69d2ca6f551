//! Compression: the account's byte image is hashed into a commitment, and
//! rebuilt from caller-supplied proof bytes only when they hash to it.

use vstd::prelude::*;
use pinocchio::pubkey::Pubkey;
use tiny_keccak::{Hasher, Keccak};
use crate::asset::{ASSET_LEN, AssetV1, asset_image};
use crate::error::CoreError;
use crate::lifecycle::{Decision, LifecycleEvent, Opinion, aggregate_spec, evaluate, participant_opinions};
use crate::registry::{HEADER_LEN, PluginRegistry, RECORD_LEN, account_image};
use crate::types::{Key, UpdateAuthorityType, key_byte};
use crate::update_authority::zero_key;

verus! {

/// Where the first plugin payload of an asset account starts.
pub const ASSET_HEADER_END: usize = ASSET_LEN + HEADER_LEN;

/// The Keccak-256 digest of a byte string.
pub uninterp spec fn keccak256_of(b: Seq<u8>) -> Seq<u8>;

/// Relies on tiny_keccak's `Keccak::v256`, `update` and `finalize`: the Keccak-256
/// digest of the input, a function of the bytes alone.
#[verifier::external_body]
fn keccak256(b: &[u8]) -> (r: [u8; 32])
    ensures
        r@ == keccak256_of(b@),
{
    let mut hasher = Keccak::v256();
    hasher.update(b);
    let mut out = [0u8; 32];
    hasher.finalize(&mut out);
    out
}

/// The record left in place of a compressed asset.
#[derive(Clone, Copy, Debug)]
pub struct HashedAssetV1 {
    /// The account discriminator.
    pub key: Key,
    /// The collection the asset belonged to, zero when none.
    pub collection: Pubkey,
    /// Digest of the account's byte image at compression.
    pub hash: [u8; 32],
    /// The sequence number at compression, zero when none was tracked.
    pub seq: u64,
}

/// The collection an asset's update authority points to, zero when none.
pub open spec fn collection_ref(a: AssetV1) -> Seq<u8> {
    if a.update_authority.tag == UpdateAuthorityType::Collection {
        a.update_authority.payload@
    } else {
        zero_key()
    }
}

/// The commitment to an asset whose account has the given byte image.
pub open spec fn is_commitment(c: HashedAssetV1, a: AssetV1, image: Seq<u8>) -> bool {
    &&& c.key == Key::HashedAssetV1
    &&& c.collection@ == collection_ref(a)
    &&& c.hash@ == keccak256_of(image)
    &&& c.seq == match a.seq_view() {
        Some(v) => v,
        None => 0u64,
    }
}

/// The asset record at the front of an account image.
pub open spec fn asset_in(img: Seq<u8>, a: AssetV1) -> bool {
    a.key == Key::AssetV1 && img.len() >= ASSET_LEN && asset_image(a) == img.subrange(
        0,
        ASSET_LEN as int,
    )
}

/// What a decision means for an operation: go on, or the error that reports
/// the denial, naming the rejecting participant when there is one.
pub open spec fn decision_result(d: Decision) -> Result<(), CoreError> {
    match d {
        Decision::Approved => Ok(()),
        Decision::Rejected(p) => Err(CoreError::PermissionDenied(p)),
        Decision::NotApproved => Err(CoreError::NotApproved),
    }
}

/// The error a decision gives, if it denies.
pub fn decision_error(d: Decision) -> (r: Option<CoreError>)
    ensures
        r is None <==> decision_result(d) is Ok,
        r matches Some(e) ==> decision_result(d) == Err::<(), CoreError>(e),
{
    match d {
        Decision::Approved => None,
        Decision::Rejected(p) => Some(CoreError::PermissionDenied(p)),
        Decision::NotApproved => Some(CoreError::NotApproved),
    }
}

/// At most one asset record sits at the front of an image.
pub proof fn lemma_asset_in_unique(img: Seq<u8>, a1: AssetV1, a2: AssetV1)
    requires
        asset_in(img, a1),
        asset_in(img, a2),
    ensures
        a1 == a2,
{
    crate::asset::lemma_asset_image_injective(a1, a2);
}

/// Compresses an asset account: its record is read from the front of the
/// account, the compress event must be approved, and the digest of the whole
/// byte image is committed.
pub fn compress(registry: &PluginRegistry, actor: &Pubkey, external: &Vec<Opinion>) -> (r: Result<
    HashedAssetV1,
    CoreError,
>)
    requires
        registry.wf(),
        registry.header_end == ASSET_HEADER_END,
        1 + registry.records@.len() + external@.len() <= usize::MAX,
    ensures
        registry.data@.len() < ASSET_LEN <==> r == Err::<HashedAssetV1, CoreError>(
            CoreError::DeserializationError,
        ),
        registry.data@.len() >= ASSET_LEN && registry.data@[0] != key_byte(Key::AssetV1) <==> r
            == Err::<HashedAssetV1, CoreError>(CoreError::IncorrectAccountKey),
        registry.data@.len() >= ASSET_LEN && registry.data@[0] == key_byte(Key::AssetV1)
            && registry.data@[33] > 2 <==> r == Err::<HashedAssetV1, CoreError>(
            CoreError::InvalidAuthorityTag,
        ),
        registry.data@.len() >= ASSET_LEN && registry.data@[0] == key_byte(Key::AssetV1)
            && registry.data@[33] <= 2 ==> exists|a: AssetV1| #[trigger] asset_in(registry.data@, a),
        forall|a: AssetV1|
            #[trigger] asset_in(registry.data@, a) ==> ({
                let d = aggregate_spec(
                    participant_opinions(
                        a,
                        *registry,
                        LifecycleEvent::Compress,
                        actor@,
                        None,
                        external@,
                    ),
                );
                match decision_result(d) {
                    Ok(_) => r is Ok && is_commitment(r->Ok_0, a, account_image(*registry)),
                    Err(e) => r == Err::<HashedAssetV1, CoreError>(e),
                }
            }),
{
    let asset = match AssetV1::from_bytes(registry.data.as_slice()) {
        Ok(a) => a,
        Err(e) => {
            proof {
                if exists|a: AssetV1| asset_in(registry.data@, a) {
                    let a = choose|a: AssetV1| asset_in(registry.data@, a);
                    assert(registry.data@[0] == asset_image(a)[0]);
                    assert(registry.data@[33] == asset_image(a)[33]);
                }
            }
            return Err(e);
        },
    };
    assert(asset_in(registry.data@, asset));
    proof {
        assert forall|a: AssetV1| #[trigger] asset_in(registry.data@, a) implies a == asset by {
            lemma_asset_in_unique(registry.data@, a, asset);
        }
    }
    let decision = evaluate(&asset, registry, LifecycleEvent::Compress, actor, None, external);
    if let Some(e) = decision_error(decision) {
        return Err(e);
    }
    let image = registry.to_image();
    let hash = keccak256(image.as_slice());
    let collection = if asset.update_authority.tag == UpdateAuthorityType::Collection {
        asset.update_authority.payload
    } else {
        let z = [0u8; 32];
        assert(z@ =~= zero_key());
        z
    };
    let seq = match asset.get_seq() {
        Some(v) => v,
        None => 0,
    };
    let c = HashedAssetV1 { key: Key::HashedAssetV1, collection, hash, seq };
    assert(is_commitment(c, asset, account_image(*registry)));
    Ok(c)
}

/// A valid image of an asset account: its record and its registry, laid out
/// as an asset account, within `max_len`.
pub open spec fn rebuilt_from(
    proof: Seq<u8>,
    max_len: usize,
    a: AssetV1,
    reg: PluginRegistry,
) -> bool {
    &&& asset_in(proof, a)
    &&& reg.wf()
    &&& reg.header_end == ASSET_HEADER_END
    &&& reg.max_len == max_len
    &&& account_image(reg) == proof
    &&& reg.records@.len() <= usize::MAX
}

/// The decompress event's decision on a rebuilt asset.
pub open spec fn decompress_decision(
    a: AssetV1,
    reg: PluginRegistry,
    actor: Seq<u8>,
    external: Seq<Opinion>,
) -> Decision {
    aggregate_spec(participant_opinions(a, reg, LifecycleEvent::Decompress, actor, None, external))
}

/// What decompression returns for proof bytes with the given digest: a
/// mismatching digest, and only it, is refused with `HashMismatch`; a valid
/// image is refused or rebuilt as the decompress decision on it says; and
/// anything rebuilt is such an image, approved.
pub open spec fn decompress_outcome(
    commitment: HashedAssetV1,
    proof: Seq<u8>,
    digest: Seq<u8>,
    max_len: usize,
    actor: Seq<u8>,
    external: Seq<Opinion>,
    r: Result<(AssetV1, PluginRegistry), CoreError>,
) -> bool {
    &&& digest != commitment.hash@ <==> r == Err::<(AssetV1, PluginRegistry), CoreError>(
        CoreError::HashMismatch,
    )
    &&& digest == commitment.hash@ && proof.len() < ASSET_LEN ==> r == Err::<
        (AssetV1, PluginRegistry),
        CoreError,
    >(CoreError::DeserializationError)
    &&& r matches Ok((a, reg)) ==> rebuilt_from(proof, max_len, a, reg) && decompress_decision(
        a,
        reg,
        actor,
        external,
    ) == Decision::Approved
    &&& forall|a: AssetV1, reg: PluginRegistry|
        digest == commitment.hash@ && #[trigger] rebuilt_from(proof, max_len, a, reg) ==> match decision_result(
            decompress_decision(a, reg, actor, external),
        ) {
            Ok(_) => r is Ok && r->Ok_0.0 == a && r->Ok_0.1.data@ == reg.data@ && r->Ok_0.1.records@
                == reg.records@,
            Err(e) => r == Err::<(AssetV1, PluginRegistry), CoreError>(e),
        }
}

/// Rebuilds an asset account from proof bytes whose digest is `proof_hash`:
/// refused unless the digest equals the commitment's, the bytes hold a valid
/// asset record and registry, and the decompress event on the rebuilt asset is
/// approved.
pub fn decompress_with_hash(
    commitment: &HashedAssetV1,
    proof: &[u8],
    proof_hash: &[u8; 32],
    max_len: usize,
    actor: &Pubkey,
    external: &Vec<Opinion>,
) -> (r: Result<(AssetV1, PluginRegistry), CoreError>)
    requires
        external@.len() <= usize::MAX / 2,
    ensures
        decompress_outcome(*commitment, proof@, proof_hash@, max_len, actor@, external@, r),
{
    if !crate::lifecycle::keys_equal(proof_hash, &commitment.hash) {
        return Err(CoreError::HashMismatch);
    }
    let asset = match AssetV1::from_bytes(proof) {
        Ok(a) => a,
        Err(e) => {
            proof {
                assert forall|a: AssetV1, reg: PluginRegistry|
                    !#[trigger] rebuilt_from(proof@, max_len, a, reg) by {
                    if rebuilt_from(proof@, max_len, a, reg) {
                        assert(proof@[0] == asset_image(a)[0]);
                        assert(proof@[33] == asset_image(a)[33]);
                    }
                }
            }
            return Err(e);
        },
    };
    let reg = match PluginRegistry::from_image(proof, ASSET_HEADER_END, max_len) {
        Ok(reg) => reg,
        Err(e) => {
            proof {
                assert forall|a: AssetV1, reg0: PluginRegistry|
                    !#[trigger] rebuilt_from(proof@, max_len, a, reg0) by {
                    if rebuilt_from(proof@, max_len, a, reg0) {
                        assert(account_image(reg0) == proof@);
                    }
                }
            }
            return Err(e);
        },
    };
    let plen = proof.len();
    proof {
        crate::registry::lemma_records_image_len(reg.records@);
        assert(proof@.len() == reg.data@.len() + 9 + RECORD_LEN * reg.records@.len());
        let n = reg.records@.len();
        let m = external@.len();
        assert(1 + n + m <= usize::MAX) by (nonlinear_arith)
            requires
                RECORD_LEN * n <= plen,
                RECORD_LEN == 50,
                plen <= usize::MAX,
                m <= usize::MAX / 2,
        ;
    }
    let decision = evaluate(&asset, &reg, LifecycleEvent::Decompress, actor, None, external);
    assert(asset_in(proof@, asset));
    proof {
        assert forall|a: AssetV1, reg0: PluginRegistry|
            #[trigger] rebuilt_from(proof@, max_len, a, reg0) implies a == asset && reg.data@
            == reg0.data@ && reg.records@ == reg0.records@ && decompress_decision(
            a,
            reg0,
            actor@,
            external@,
        ) == decision by {
            lemma_asset_in_unique(proof@, a, asset);
            assert(account_image(reg0) == proof@);
            assert(participant_opinions(asset, reg, LifecycleEvent::Decompress, actor@, None, external@)
                =~= participant_opinions(a, reg0, LifecycleEvent::Decompress, actor@, None, external@));
        }
    }
    if let Some(e) = decision_error(decision) {
        return Err(e);
    }
    Ok((asset, reg))
}

/// Rebuilds an asset account from caller-supplied proof bytes, refusing them
/// unless they hash to the commitment.
pub fn decompress(
    commitment: &HashedAssetV1,
    proof: &[u8],
    max_len: usize,
    actor: &Pubkey,
    external: &Vec<Opinion>,
) -> (r: Result<(AssetV1, PluginRegistry), CoreError>)
    requires
        external@.len() <= usize::MAX / 2,
    ensures
        decompress_outcome(
            *commitment,
            proof@,
            keccak256_of(proof@),
            max_len,
            actor@,
            external@,
            r,
        ),
{
    let h = keccak256(proof);
    decompress_with_hash(commitment, proof, &h, max_len, actor, external)
}

/// Round trip: the image that was committed hashes to the commitment and
/// holds the compressed asset record and registry; so decompressing it rebuilds
/// exactly that record and registry when the decompress event is approved, and
/// otherwise is denied with the error the decision names.
pub proof fn lemma_compress_round_trip(
    reg: PluginRegistry,
    a: AssetV1,
    c: HashedAssetV1,
    actor: Seq<u8>,
    external: Seq<Opinion>,
    r: Result<(AssetV1, PluginRegistry), CoreError>,
)
    requires
        reg.wf(),
        reg.header_end == ASSET_HEADER_END,
        reg.records@.len() <= usize::MAX,
        asset_in(reg.data@, a),
        is_commitment(c, a, account_image(reg)),
        decompress_outcome(
            c,
            account_image(reg),
            keccak256_of(account_image(reg)),
            reg.max_len,
            actor,
            external,
            r,
        ),
    ensures
        keccak256_of(account_image(reg)) == c.hash@,
        rebuilt_from(account_image(reg), reg.max_len, a, reg),
        match decision_result(decompress_decision(a, reg, actor, external)) {
            Ok(_) => r is Ok && r->Ok_0.0 == a && r->Ok_0.1.data@ == reg.data@ && r->Ok_0.1.records@
                == reg.records@ && account_image(r->Ok_0.1) == account_image(reg),
            Err(e) => r == Err::<(AssetV1, PluginRegistry), CoreError>(e),
        },
{
    let img = account_image(reg);
    assert(img.subrange(0, ASSET_LEN as int) =~= reg.data@.subrange(0, ASSET_LEN as int));
    assert(rebuilt_from(img, reg.max_len, a, reg));
}

} // verus!
