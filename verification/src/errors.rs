//! The error taxonomy of the library.

use vstd::prelude::*;

verus! {

/// Malformed persisted bytes: storage corruption, fatal for the current
/// query but not for the process.
#[derive(Clone, Copy, Debug, PartialEq, Eq, Structural)]
pub enum DecodeError {
    /// The leading byte is not a known storage tag.
    BadTag,
    /// The key is shorter than its family's fixed-width fields.
    TruncatedKey,
    /// The value payload does not deserialize.
    ValueDeserError,
}

/// An error surfaced by a relational-algebra stream or combinator.
#[derive(Clone, Copy, Debug, PartialEq, Eq, Structural)]
pub enum AlgebraError {
    /// Two subtrees export the same binding name.
    BindingCollision,
    /// Malformed persisted bytes met while scanning.
    Decode(DecodeError),
    /// An I/O failure of the underlying KV store.
    StoreError,
    /// The snapshot was dropped before the stream completed.
    CancelledSnapshot,
}

} // verus!
