//! Identifiers shared by the multiplexer and the sync queue: backend ids,
//! multiplex ids, and the per-put operation key.

use vstd::prelude::*;

verus! {

/// Stable numeric identifier of one backend blob store within a multiplex.
#[derive(Clone, Copy, Debug, PartialEq, Eq, Structural, Hash)]
pub struct BlobstoreId(pub u64);

/// Identifier of a logical multiplex; it scopes sync-queue rows, so distinct
/// multiplexes can share one queue.
#[derive(Clone, Copy, Debug, PartialEq, Eq, Structural, Hash)]
pub struct MultiplexId(pub u64);

/// Identifier of one logical put operation, shared by every per-backend
/// sync-queue row that the put produces, so the self-healer can group them.
/// Holds the 128 bits of a version-4 UUID.
#[derive(Clone, Copy, Debug, PartialEq, Eq, Structural, Hash)]
pub struct OperationKey(pub u128);

impl OperationKey {
    /// Relies on uuid::Uuid::new_v4 and uuid::Uuid::as_u128: a version-4 UUID
    /// carries nonzero version bits, so its 128-bit value is never zero.
    #[verifier::external_body]
    pub fn gen() -> (key: OperationKey)
        ensures
            key.0 != 0,
    {
        OperationKey(uuid::Uuid::new_v4().as_u128())
    }

    pub fn is_null(&self) -> (null: bool)
        ensures
            null == (self.0 == 0),
    {
        self.0 == 0
    }
}

} // verus!
