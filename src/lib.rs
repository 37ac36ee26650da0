//! Replays the first-parent history of a repository into a fresh one.
//!
//! The library decides what to replay and in which order, which blobs must be
//! written and which can be skipped, and how each new commit is linked. The
//! object store itself is driven by the application around it.
pub mod builder;
pub mod bytes;
pub mod cache;
pub mod copier;
pub mod driver;
pub mod error;
pub mod traversal;
pub mod walker;
