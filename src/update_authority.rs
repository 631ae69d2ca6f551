//! The update authority of an asset: a tag and a 32-byte payload.

use vstd::prelude::*;
use pinocchio::pubkey::Pubkey;
use crate::types::UpdateAuthorityType;

verus! {

/// The all-zero key, used where a tag carries no payload.
pub open spec fn zero_key() -> Seq<u8> {
    Seq::new(32, |i: int| 0u8)
}

/// A tagged union over {none, address, collection}; the payload is zero
/// when the tag carries none.
#[derive(Clone, Copy, Debug)]
pub struct UpdateAuthority {
    pub tag: UpdateAuthorityType,
    pub payload: Pubkey,
}

impl UpdateAuthority {
    /// Whether the tag names a key that can sign.
    pub open spec fn has_key(&self) -> bool {
        self.tag == UpdateAuthorityType::Address || self.tag == UpdateAuthorityType::Collection
    }

    /// The key the authority resolves to, zero when there is none.
    pub open spec fn key_view(&self) -> Seq<u8> {
        if self.has_key() { self.payload@ } else { zero_key() }
    }

    pub fn none() -> (r: Self)
        ensures
            r.tag == UpdateAuthorityType::NoAuthority,
            r.payload@ == zero_key(),
    {
        let r = Self { tag: UpdateAuthorityType::NoAuthority, payload: [0u8; 32] };
        assert(r.payload@ =~= zero_key());
        r
    }

    pub fn address(key: Pubkey) -> (r: Self)
        ensures
            r.tag == UpdateAuthorityType::Address,
            r.payload == key,
    {
        Self { tag: UpdateAuthorityType::Address, payload: key }
    }

    pub fn collection(key: Pubkey) -> (r: Self)
        ensures
            r.tag == UpdateAuthorityType::Collection,
            r.payload == key,
    {
        Self { tag: UpdateAuthorityType::Collection, payload: key }
    }

    /// The key if the tag carries one, otherwise the all-zero key.
    pub fn key(&self) -> (r: Pubkey)
        ensures
            r@ == self.key_view(),
    {
        match self.tag {
            UpdateAuthorityType::Address | UpdateAuthorityType::Collection => self.payload,
            _ => {
                let z = [0u8; 32];
                assert(z@ =~= zero_key());
                z
            },
        }
    }

    pub fn is_some(&self) -> (r: bool)
        ensures
            r == (self.tag != UpdateAuthorityType::NoAuthority),
    {
        self.tag != UpdateAuthorityType::NoAuthority
    }
}

} // verus!
