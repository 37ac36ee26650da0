//! What the target store is asked to commit for one source commit.
use vstd::prelude::*;

verus! {

/// A commit of the source history, as the replay reads it.
#[derive(Clone, Debug)]
pub struct SourceCommit {
    pub cid: Vec<u8>,
    pub author_name: Vec<u8>,
    pub author_email: Vec<u8>,
    pub message: Vec<u8>,
}

/// A commit to create in the target store from the tree staged so far.
#[derive(Clone, Debug)]
pub struct CommitRequest {
    pub author_name: Vec<u8>,
    pub author_email: Vec<u8>,
    pub message: Vec<u8>,
    pub parents: Vec<Vec<u8>>,
}

impl CommitRequest {
    /// The parents as values.
    pub open spec fn parents_model(&self) -> Seq<Seq<u8>> {
        self.parents@.map_values(|p: Vec<u8>| p@)
    }
}

/// The request for `source`: its author and message taken over as they are,
/// with the given target parents.
pub fn commit_request(source: &SourceCommit, parents: Vec<Vec<u8>>) -> (r: CommitRequest)
    ensures
        r.author_name@ == source.author_name@,
        r.author_email@ == source.author_email@,
        r.message@ == source.message@,
        r.parents@ == parents@,
{
    CommitRequest {
        author_name: source.author_name.clone(),
        author_email: source.author_email.clone(),
        message: source.message.clone(),
        parents,
    }
}

} // verus!
