//! A multiplexed blob store core: fan-out of blob operations across several
//! backend stores, partial-failure classification, a scrub (cross-replica
//! validation) read, and the sync-queue log that records successful writes
//! for an out-of-band self-healer.
//!
//! The asynchronous plumbing (task spawning, deadlines, channels) lives
//! outside this crate; the decisions it carries out are implemented and
//! verified here as reducers over the events that the plumbing delivers.

pub mod base;
pub mod blob;
pub mod bookmark;
pub mod errors;
pub mod fanout;
pub mod handler;
pub mod ids;
pub mod put;
pub mod queue;
pub mod response;
pub mod scrub;

pub use ids::BlobstoreId;
pub use ids::MultiplexId;
pub use ids::OperationKey;
