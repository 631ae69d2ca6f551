//! Tagged primitives shared by every record: discriminants and the
//! fixed-capacity, length-prefixed byte string.

use vstd::prelude::*;
use vstd::slice::slice_subrange;
use vstd::utf8::encode_utf8;
use vstd::string::StringSliceAdditionalSpecFns;

verus! {

/// The account discriminator: the first byte of every record.
#[derive(Clone, Copy, Debug, PartialEq, Eq, Structural)]
pub enum Key {
    /// Uninitialized or invalid account.
    Uninitialized,
    /// An account holding an uncompressed asset.
    AssetV1,
    /// An account holding a compressed asset.
    HashedAssetV1,
    /// A discriminator indicating the plugin header.
    PluginHeaderV1,
    /// A discriminator indicating the plugin registry.
    PluginRegistryV1,
    /// A discriminator indicating the collection.
    CollectionV1,
}

/// Byte encoding of a discriminator.
pub open spec fn key_byte(k: Key) -> u8 {
    match k {
        Key::Uninitialized => 0,
        Key::AssetV1 => 1,
        Key::HashedAssetV1 => 2,
        Key::PluginHeaderV1 => 3,
        Key::PluginRegistryV1 => 4,
        Key::CollectionV1 => 5,
    }
}

impl Key {
    pub fn to_byte(self) -> (r: u8)
        ensures
            r == key_byte(self),
    {
        match self {
            Key::Uninitialized => 0,
            Key::AssetV1 => 1,
            Key::HashedAssetV1 => 2,
            Key::PluginHeaderV1 => 3,
            Key::PluginRegistryV1 => 4,
            Key::CollectionV1 => 5,
        }
    }

    /// Decodes a discriminator byte; bytes past the last discriminator are refused.
    pub fn from_byte(b: u8) -> (r: Option<Key>)
        ensures
            r is None <==> b > 5,
            r matches Some(k) ==> key_byte(k) == b,
    {
        match b {
            0 => Some(Key::Uninitialized),
            1 => Some(Key::AssetV1),
            2 => Some(Key::HashedAssetV1),
            3 => Some(Key::PluginHeaderV1),
            4 => Some(Key::PluginRegistryV1),
            5 => Some(Key::CollectionV1),
            _ => None,
        }
    }
}

/// Where an asset's data lives.
#[derive(Clone, Copy, Debug, PartialEq, Eq, Structural)]
pub enum DataState {
    /// The data is stored in account state.
    AccountState,
    /// The data is stored in the ledger history (compressed).
    LedgerState,
}

/// The kind of authority that may mutate a plugin.
#[derive(Clone, Copy, Debug, PartialEq, Eq, Structural)]
pub enum AuthorityType {
    /// No authority, used for immutability.
    NoAuthority,
    /// The owner of the core asset.
    Owner,
    /// The update authority of the core asset.
    UpdateAuthority,
    /// A pubkey that is the authority over a plugin.
    Address,
}

/// The kind of update authority of an asset.
#[derive(Clone, Copy, Debug, PartialEq, Eq, Structural)]
pub enum UpdateAuthorityType {
    /// No update authority, used for immutability.
    NoAuthority,
    /// A standard address or PDA.
    Address,
    /// Authority delegated to a collection.
    Collection,
}

/// Byte encoding of an update authority tag.
pub open spec fn update_authority_type_byte(t: UpdateAuthorityType) -> u8 {
    match t {
        UpdateAuthorityType::NoAuthority => 0,
        UpdateAuthorityType::Address => 1,
        UpdateAuthorityType::Collection => 2,
    }
}

impl UpdateAuthorityType {
    pub fn to_byte(self) -> (r: u8)
        ensures
            r == update_authority_type_byte(self),
    {
        match self {
            UpdateAuthorityType::NoAuthority => 0,
            UpdateAuthorityType::Address => 1,
            UpdateAuthorityType::Collection => 2,
        }
    }

    /// Decodes a tag byte; unknown tags are refused.
    pub fn from_byte(b: u8) -> (r: Option<UpdateAuthorityType>)
        ensures
            r is None <==> b > 2,
            r matches Some(t) ==> update_authority_type_byte(t) == b,
    {
        match b {
            0 => Some(UpdateAuthorityType::NoAuthority),
            1 => Some(UpdateAuthorityType::Address),
            2 => Some(UpdateAuthorityType::Collection),
            _ => None,
        }
    }
}

/// A fixed-size string: a length byte and `N` bytes of storage, zero past the length.
#[derive(Clone, Copy, Debug)]
pub struct PodStr<const N: usize> {
    pub len: u8,
    pub value: [u8; N],
}

/// The bytes a `PodStr<N>` built from `s` holds: `s` cut to `N` bytes, zero-padded.
pub open spec fn pod_str_value(s: Seq<u8>, n: nat) -> Seq<u8> {
    Seq::new(n, |i: int| if i < s.len() { s[i] } else { 0u8 })
}

pub open spec fn min_len(a: nat, b: nat) -> nat {
    if a < b { a } else { b }
}

impl<const N: usize> PodStr<N> {
    /// The meaningful bytes: the stored prefix, its length capped at `N`.
    pub open spec fn bytes(&self) -> Seq<u8> {
        self.value@.subrange(0, min_len(self.len as nat, N as nat) as int)
    }

    /// Builds a string from `s`, keeping at most its first `N` bytes.
    pub fn from_str(s: &str) -> (r: Self)
        requires
            N <= 255,
        ensures
            r.len as nat == min_len(s.spec_bytes().len(), N as nat),
            r.value@ == pod_str_value(s.spec_bytes().subrange(0, r.len as int), N as nat),
            r.bytes() == s.spec_bytes().subrange(0, r.len as int),
    {
        let mut value = [0u8; N];
        let bytes = s.as_bytes();
        let len: usize = if bytes.len() < N { bytes.len() } else { N };
        let mut i: usize = 0;
        while i < len
            invariant
                len <= bytes@.len(),
                len <= N,
                i <= len,
                value@.len() == N,
                forall|j: int| 0 <= j < i ==> value@[j] == bytes@[j],
                forall|j: int| i <= j < N ==> value@[j] == 0u8,
            decreases len - i,
        {
            value[i] = bytes[i];
            i = i + 1;
        }
        let r = PodStr { len: len as u8, value };
        assert(r.value@ =~= pod_str_value(bytes@.subrange(0, len as int), N as nat));
        assert(r.bytes() =~= bytes@.subrange(0, len as int));
        r
    }

    /// The stored prefix as text; empty when it is not valid UTF-8.
    pub fn as_str(&self) -> (r: &str)
        ensures
            (exists|c: Seq<char>| encode_utf8(c) == self.bytes()) ==> r.spec_bytes() == self.bytes(),
            !(exists|c: Seq<char>| encode_utf8(c) == self.bytes()) ==> r.spec_bytes().len() == 0,
    {
        let len: usize = if (self.len as usize) < N { self.len as usize } else { N };
        let prefix = slice_subrange(self.value.as_slice(), 0, len);
        match utf8_str(prefix) {
            Some(s) => {
                assert(encode_utf8(s@) == self.bytes());
                s
            },
            None => {
                proof {
                    reveal_strlit("");
                }
                ""
            },
        }
    }
}

/// Relies on `std::str::from_utf8`: it accepts exactly the byte strings that are
/// valid UTF-8, and the accepted text has those bytes.
#[verifier::external_body]
fn utf8_str(b: &[u8]) -> (r: Option<&str>)
    ensures
        r matches Some(s) ==> s.spec_bytes() == b@,
        (exists|c: Seq<char>| encode_utf8(c) == b@) ==> r is Some,
{
    std::str::from_utf8(b).ok()
}

} // verus!
