//! Errors of the core operations.

use vstd::prelude::*;

verus! {

/// Every failure the core reports to its caller.
#[derive(Clone, Copy, Debug, PartialEq, Eq, Structural)]
pub enum CoreError {
    /// A record is shorter than its fixed layout.
    DeserializationError,
    /// A record's first byte is not the discriminant the reader expects.
    IncorrectAccountKey,
    /// An update authority tag byte names no known tag.
    InvalidAuthorityTag,
    /// Registry slots that overlap, leave gaps or repeat a plugin type.
    InvalidRegistry,
    /// Proof bytes do not hash to the stored commitment.
    HashMismatch,
    /// The registry holds no plugin of the requested type.
    PluginNotFound,
    /// The registry already holds a plugin of the requested type.
    PluginAlreadyExists,
    /// The account would grow past its maximum size.
    CapacityExceeded,
    /// The lifecycle event was rejected by the participant at this position.
    PermissionDenied(usize),
    /// The lifecycle event was denied because no participant approved it.
    NotApproved,
}

} // verus!
