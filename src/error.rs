//! What can stop a replication run.
use vstd::prelude::*;

verus! {

/// The reasons a run stops. Each of them is fatal.
#[derive(Clone, Debug)]
pub enum ReplayError {
    /// Neither candidate branch resolves to a commit.
    BranchNotFound,
    /// A tree entry at this path is neither a blob nor a tree.
    UnsupportedObjectKind { path: Vec<u8> },
    /// A blob could not be read from the source store.
    ContentReadFailure,
    /// A file could not be written to the target working tree.
    ContentWriteFailure,
    /// The target store could not attribute a commit.
    MissingIdentity,
}

} // verus!
