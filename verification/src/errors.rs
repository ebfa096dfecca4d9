//! Classified failures of a multiplexed operation. Per-backend errors are
//! collected, never thrown one by one; an operation fails with an aggregate
//! that names every backend involved.

use vstd::prelude::*;

use crate::blob::BlobstoreGetData;
use crate::ids::BlobstoreId;

verus! {

/// The aggregate failure of a fanned-out operation. The first two variants
/// can come from any operation; the last two only from a scrub read, and
/// `SomeMissingItem` is recoverable: it carries the agreed value so a healer
/// can repair the lagging backends.
#[derive(Debug)]
pub enum ErrorKind {
    /// Some backends failed while every responding backend saw no value;
    /// carries the per-backend errors in arrival order.
    SomeFailedOthersNone(Vec<(BlobstoreId, String)>),
    /// Every backend failed; carries the per-backend errors in arrival order.
    AllFailed(Vec<(BlobstoreId, String)>),
    /// Scrub only: backends hold byte-divergent values. Carries the backends
    /// that answered with a value and those that answered with none.
    ValueMismatch(Vec<BlobstoreId>, Vec<BlobstoreId>),
    /// Scrub only: the answering backends agree, but some backends miss the
    /// item. Carries the lagging backends and the agreed value.
    SomeMissingItem(Vec<BlobstoreId>, Option<BlobstoreGetData>),
}

} // verus!
