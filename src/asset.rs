//! The core asset record, its byte layout and its sequence counter.

use vstd::prelude::*;
use pinocchio::pubkey::Pubkey;
use pinocchio::ProgramResult;
use crate::error::CoreError;
use crate::lifecycle::CheckResult;
use crate::types::{Key, PodStr, UpdateAuthorityType, key_byte, update_authority_type_byte};
use crate::update_authority::UpdateAuthority;

verus! {

/// Declares pinocchio's `ProgramError`, the error half of `ProgramResult`, as an
/// opaque type.
#[verifier::external_type_specification]
#[verifier::external_body]
pub struct ExProgramError(pinocchio::program_error::ProgramError);

/// Bytes of the serialized asset record.
pub const ASSET_LEN: usize = 237;

/// Little-endian value of eight bytes.
pub open spec fn le_u64(b: Seq<u8>) -> u64 {
    (b[0] as u64) | ((b[1] as u64) << 8u64) | ((b[2] as u64) << 16u64) | ((b[3] as u64) << 24u64)
        | ((b[4] as u64) << 32u64) | ((b[5] as u64) << 40u64) | ((b[6] as u64) << 48u64)
        | ((b[7] as u64) << 56u64)
}

/// Little-endian bytes of a value.
pub open spec fn le_bytes(v: u64) -> Seq<u8> {
    seq![
        v as u8,
        (v >> 8u64) as u8,
        (v >> 16u64) as u8,
        (v >> 24u64) as u8,
        (v >> 32u64) as u8,
        (v >> 40u64) as u8,
        (v >> 48u64) as u8,
        (v >> 56u64) as u8,
    ]
}

/// Adding one, stopping at the largest value.
pub open spec fn saturating_inc(v: u64) -> u64 {
    if v == u64::MAX { v } else { (v + 1) as u64 }
}

pub proof fn lemma_le_round_trip(v: u64)
    ensures
        le_u64(le_bytes(v)) == v,
{
    let b = le_bytes(v);
    let (b0, b1, b2, b3, b4, b5, b6, b7) = (b[0], b[1], b[2], b[3], b[4], b[5], b[6], b[7]);
    assert(b0 == v as u8 && b1 == (v >> 8u64) as u8 && b2 == (v >> 16u64) as u8 && b3 == (v
        >> 24u64) as u8 && b4 == (v >> 32u64) as u8 && b5 == (v >> 40u64) as u8 && b6 == (v
        >> 48u64) as u8 && b7 == (v >> 56u64) as u8);
    assert(((b0 as u64) | ((b1 as u64) << 8u64) | ((b2 as u64) << 16u64) | ((b3 as u64) << 24u64)
        | ((b4 as u64) << 32u64) | ((b5 as u64) << 40u64) | ((b6 as u64) << 48u64) | ((b7 as u64)
        << 56u64)) == v) by (bit_vector)
        requires
            b0 == v as u8,
            b1 == (v >> 8u64) as u8,
            b2 == (v >> 16u64) as u8,
            b3 == (v >> 24u64) as u8,
            b4 == (v >> 32u64) as u8,
            b5 == (v >> 40u64) as u8,
            b6 == (v >> 48u64) as u8,
            b7 == (v >> 56u64) as u8,
    ;
}

pub fn read_le_u64(b: &[u8; 8]) -> (r: u64)
    ensures
        r == le_u64(b@),
{
    (b[0] as u64) | ((b[1] as u64) << 8u64) | ((b[2] as u64) << 16u64) | ((b[3] as u64) << 24u64)
        | ((b[4] as u64) << 32u64) | ((b[5] as u64) << 40u64) | ((b[6] as u64) << 48u64) | ((
    b[7] as u64) << 56u64)
}

pub fn write_le_u64(v: u64) -> (r: [u8; 8])
    ensures
        r@ == le_bytes(v),
{
    let r = [
        v as u8,
        (v >> 8u64) as u8,
        (v >> 16u64) as u8,
        (v >> 24u64) as u8,
        (v >> 32u64) as u8,
        (v >> 40u64) as u8,
        (v >> 48u64) as u8,
        (v >> 56u64) as u8,
    ];
    assert(r@ =~= le_bytes(v));
    r
}

/// The base record of an asset.
#[derive(Clone, Copy, Debug)]
pub struct AssetV1 {
    /// The account discriminator.
    pub key: Key,
    /// The owner of the asset.
    pub owner: Pubkey,
    /// The update authority of the asset.
    pub update_authority: UpdateAuthority,
    /// The name of the asset.
    pub name: PodStr<32>,
    /// The URI of the asset that points to the off-chain data.
    pub uri: PodStr<128>,
    /// One when a sequence number is tracked.
    pub seq_present: u8,
    /// The sequence number used for indexing with compression, little-endian.
    pub seq: [u8; 8],
}

/// The exact byte image of an asset record.
pub open spec fn asset_image(a: AssetV1) -> Seq<u8> {
    seq![key_byte(a.key)] + a.owner@ + seq![update_authority_type_byte(a.update_authority.tag)]
        + a.update_authority.payload@ + seq![a.name.len] + a.name.value@ + seq![a.uri.len]
        + a.uri.value@ + seq![a.seq_present] + a.seq@
}

/// Appends the bytes of `s` to `v`.
pub fn push_bytes(v: &mut Vec<u8>, s: &[u8])
    ensures
        final(v)@ == old(v)@ + s@,
{
    let mut i: usize = 0;
    let ghost start = v@;
    while i < s.len()
        invariant
            i <= s@.len(),
            v@ == start + s@.subrange(0, i as int),
        decreases s@.len() - i,
    {
        v.push(s[i]);
        i = i + 1;
        assert(v@ =~= start + s@.subrange(0, i as int));
    }
    assert(s@.subrange(0, i as int) =~= s@);
}

/// Copies `N` bytes of `b` from `off` into an array.
pub fn read_array<const N: usize>(b: &[u8], off: usize) -> (r: [u8; N])
    requires
        off + N <= b@.len(),
    ensures
        r@ == b@.subrange(off as int, off + N),
{
    let mut r = [0u8; N];
    let blen = b.len();
    let mut i: usize = 0;
    while i < N
        invariant
            blen == b@.len(),
            off + N <= b@.len(),
            i <= N,
            r@.len() == N,
            forall|j: int| 0 <= j < i ==> r@[j] == b@[off + j],
        decreases N - i,
    {
        r[i] = b[off + i];
        i = i + 1;
    }
    assert(r@ =~= b@.subrange(off as int, off + N));
    r
}

/// Equal images come from equal records.
pub proof fn lemma_asset_image_injective(a1: AssetV1, a2: AssetV1)
    requires
        asset_image(a1) == asset_image(a2),
    ensures
        a1 == a2,
{
    let i1 = asset_image(a1);
    let i2 = asset_image(a2);
    assert(i1.len() == ASSET_LEN);
    assert(a1.owner@ =~= i1.subrange(1, 33));
    assert(a2.owner@ =~= i2.subrange(1, 33));
    assert(a1.update_authority.payload@ =~= i1.subrange(34, 66));
    assert(a2.update_authority.payload@ =~= i2.subrange(34, 66));
    assert(a1.name.value@ =~= i1.subrange(67, 99));
    assert(a2.name.value@ =~= i2.subrange(67, 99));
    assert(a1.uri.value@ =~= i1.subrange(100, 228));
    assert(a2.uri.value@ =~= i2.subrange(100, 228));
    assert(a1.seq@ =~= i1.subrange(229, 237));
    assert(a2.seq@ =~= i2.subrange(229, 237));
    assert(i1[0] == i2[0] && i1[33] == i2[33] && i1[66] == i2[66] && i1[99] == i2[99] && i1[228]
        == i2[228]);
    assert(a1.owner =~= a2.owner);
    assert(a1.update_authority.payload =~= a2.update_authority.payload);
    assert(a1.name.value =~= a2.name.value);
    assert(a1.uri.value =~= a2.uri.value);
    assert(a1.seq =~= a2.seq);
}

impl AssetV1 {
    /// The record's bytes in layout order.
    pub fn to_bytes(&self) -> (r: Vec<u8>)
        ensures
            r@ == asset_image(*self),
    {
        let mut v: Vec<u8> = Vec::new();
        v.push(self.key.to_byte());
        push_bytes(&mut v, self.owner.as_slice());
        v.push(self.update_authority.tag.to_byte());
        push_bytes(&mut v, self.update_authority.payload.as_slice());
        v.push(self.name.len);
        push_bytes(&mut v, self.name.value.as_slice());
        v.push(self.uri.len);
        push_bytes(&mut v, self.uri.value.as_slice());
        v.push(self.seq_present);
        push_bytes(&mut v, self.seq.as_slice());
        assert(v@ =~= asset_image(*self));
        v
    }

    /// Reads an asset record from the front of `b`, refusing a short buffer,
    /// another discriminant or an unknown update authority tag.
    pub fn from_bytes(b: &[u8]) -> (r: Result<AssetV1, CoreError>)
        ensures
            b@.len() < ASSET_LEN <==> r == Err::<AssetV1, CoreError>(CoreError::DeserializationError),
            b@.len() >= ASSET_LEN && b@[0] != key_byte(Key::AssetV1) <==> r == Err::<AssetV1, CoreError>(
                CoreError::IncorrectAccountKey,
            ),
            b@.len() >= ASSET_LEN && b@[0] == key_byte(Key::AssetV1) && b@[33] > 2 <==> r == Err::<
                AssetV1,
                CoreError,
            >(CoreError::InvalidAuthorityTag),
            r is Ok <==> b@.len() >= ASSET_LEN && b@[0] == key_byte(Key::AssetV1) && b@[33] <= 2,
            r matches Ok(a) ==> a.key == Key::AssetV1 && asset_image(a) == b@.subrange(0, ASSET_LEN as int),
    {
        if b.len() < ASSET_LEN {
            return Err(CoreError::DeserializationError);
        }
        if b[0] != 1 {
            return Err(CoreError::IncorrectAccountKey);
        }
        let tag = match UpdateAuthorityType::from_byte(b[33]) {
            Some(t) => t,
            None => return Err(CoreError::InvalidAuthorityTag),
        };
        let a = AssetV1 {
            key: Key::AssetV1,
            owner: read_array::<32>(b, 1),
            update_authority: UpdateAuthority { tag, payload: read_array::<32>(b, 34) },
            name: PodStr { len: b[66], value: read_array::<32>(b, 67) },
            uri: PodStr { len: b[99], value: read_array::<128>(b, 100) },
            seq_present: b[228],
            seq: read_array::<8>(b, 229),
        };
        assert(asset_image(a) =~= b@.subrange(0, ASSET_LEN as int));
        Ok(a)
    }

    /// The tracked sequence number, if any.
    pub open spec fn seq_view(&self) -> Option<u64> {
        if self.seq_present == 1 { Some(le_u64(self.seq@)) } else { None }
    }

    /// Create a new asset with the asset discriminator and no sequence number.
    pub fn new(
        owner: Pubkey,
        update_authority: UpdateAuthority,
        name: PodStr<32>,
        uri: PodStr<128>,
    ) -> (r: Self)
        ensures
            r.key == Key::AssetV1,
            r.owner == owner,
            r.update_authority == update_authority,
            r.name == name,
            r.uri == uri,
            r.seq_present == 0,
            r.seq@ == seq![0u8, 0u8, 0u8, 0u8, 0u8, 0u8, 0u8, 0u8],
            r.seq_view() is None,
    {
        let r = Self {
            key: Key::AssetV1,
            owner,
            update_authority,
            name,
            uri,
            seq_present: 0,
            seq: [0u8; 8],
        };
        assert(r.seq@ =~= seq![0u8, 0u8, 0u8, 0u8, 0u8, 0u8, 0u8, 0u8]);
        r
    }

    /// Increments a tracked sequence number by one, saturating; no-op when none is tracked.
    pub fn increment_seq(&mut self) -> (r: ProgramResult)
        ensures
            r is Ok,
            old(self).seq_view() is None ==> *final(self) == *old(self),
            old(self).seq_view() matches Some(v) ==> final(self).seq_view() == Some(
                saturating_inc(v),
            ),
            final(self).key == old(self).key,
            final(self).owner == old(self).owner,
            final(self).update_authority == old(self).update_authority,
            final(self).name == old(self).name,
            final(self).uri == old(self).uri,
            final(self).seq_present == old(self).seq_present,
    {
        if let Some(_seq) = self.get_seq() {
            let val = read_le_u64(&self.seq);
            let next = val.saturating_add(1);
            self.seq = write_le_u64(next);
            proof {
                lemma_le_round_trip(next);
            }
        }
        Ok(())
    }

    pub fn get_seq(&self) -> (r: Option<u64>)
        ensures
            r == self.seq_view(),
    {
        if self.seq_present == 1 {
            Some(read_le_u64(&self.seq))
        } else {
            None
        }
    }

    /// Base permission for the create lifecycle event.
    pub fn check_create() -> (r: CheckResult)
        ensures
            r == CheckResult::CanApprove,
    {
        CheckResult::CanApprove
    }

    /// Base permission for the add plugin lifecycle event.
    pub fn check_add_plugin() -> (r: CheckResult)
        ensures
            r == CheckResult::CanApprove,
    {
        CheckResult::CanApprove
    }

    /// Base permission for the remove plugin lifecycle event.
    pub fn check_remove_plugin() -> (r: CheckResult)
        ensures
            r == CheckResult::CanApprove,
    {
        CheckResult::CanApprove
    }

    /// Base permission for the update plugin lifecycle event: deferred to the plugin.
    pub fn check_update_plugin() -> (r: CheckResult)
        ensures
            r == CheckResult::NoOpinion,
    {
        CheckResult::NoOpinion
    }

    /// Base permission for the approve plugin authority lifecycle event.
    pub fn check_approve_plugin_authority() -> (r: CheckResult)
        ensures
            r == CheckResult::CanApprove,
    {
        CheckResult::CanApprove
    }

    /// Base permission for the revoke plugin authority lifecycle event.
    pub fn check_revoke_plugin_authority() -> (r: CheckResult)
        ensures
            r == CheckResult::CanApprove,
    {
        CheckResult::CanApprove
    }

    /// Base permission for the transfer lifecycle event.
    pub fn check_transfer() -> (r: CheckResult)
        ensures
            r == CheckResult::CanApprove,
    {
        CheckResult::CanApprove
    }

    /// Base permission for the burn lifecycle event.
    pub fn check_burn() -> (r: CheckResult)
        ensures
            r == CheckResult::CanApprove,
    {
        CheckResult::CanApprove
    }

    /// Base permission for the update lifecycle event.
    pub fn check_update() -> (r: CheckResult)
        ensures
            r == CheckResult::CanApprove,
    {
        CheckResult::CanApprove
    }

    /// Base permission for the compress lifecycle event.
    pub fn check_compress() -> (r: CheckResult)
        ensures
            r == CheckResult::CanApprove,
    {
        CheckResult::CanApprove
    }

    /// Base permission for the decompress lifecycle event.
    pub fn check_decompress() -> (r: CheckResult)
        ensures
            r == CheckResult::CanApprove,
    {
        CheckResult::CanApprove
    }

    /// Base permission for the add external plugin adapter lifecycle event.
    pub fn check_add_external_plugin_adapter() -> (r: CheckResult)
        ensures
            r == CheckResult::CanApprove,
    {
        CheckResult::CanApprove
    }

    /// Base permission for the remove external plugin adapter lifecycle event.
    pub fn check_remove_external_plugin_adapter() -> (r: CheckResult)
        ensures
            r == CheckResult::CanApprove,
    {
        CheckResult::CanApprove
    }

    /// Base permission for the update external plugin adapter lifecycle event:
    /// deferred to the adapter.
    pub fn check_update_external_plugin_adapter() -> (r: CheckResult)
        ensures
            r == CheckResult::NoOpinion,
    {
        CheckResult::NoOpinion
    }

    /// Base permission for the execute lifecycle event.
    pub fn check_execute() -> (r: CheckResult)
        ensures
            r == CheckResult::CanApprove,
    {
        CheckResult::CanApprove
    }
}

} // verus!
