//! Chooses the branch to replay and puts its first-parent chain in the
//! order of replay, oldest first.
use vstd::prelude::*;

use crate::bytes::position_of;
use crate::error::ReplayError;

verus! {

/// Whether some reference is named exactly `name`.
pub open spec fn resolves(names: Seq<Vec<u8>>, name: Seq<u8>) -> bool {
    exists|k: int| 0 <= k < names.len() && (#[trigger] names[k])@ == name
}

/// The branch to replay: the first of `candidates`, full reference names in
/// order of preference, that names a reference. Returns the position of that
/// reference among `names`. Fails with `BranchNotFound` when no candidate
/// names a reference.
pub fn select_branch(names: &Vec<Vec<u8>>, candidates: &Vec<Vec<u8>>) -> (r: Result<usize, ReplayError>)
    ensures
        match r {
            Ok(i) => exists|c: int|
                0 <= c < candidates@.len() && i < names@.len()
                    && names@[i as int]@ == candidates@[c]@
                    && forall|d: int| 0 <= d < c ==> !resolves(names@, #[trigger] candidates@[d]@),
            Err(e) => e is BranchNotFound
                && forall|d: int| 0 <= d < candidates@.len() ==> !resolves(names@, #[trigger] candidates@[d]@),
        },
{
    let mut c: usize = 0;
    while c < candidates.len()
        invariant
            0 <= c <= candidates@.len(),
            forall|d: int| 0 <= d < c ==> !resolves(names@, #[trigger] candidates@[d]@),
        decreases candidates@.len() - c,
    {
        match position_of(names, &candidates[c]) {
            Some(i) => {
                return Ok(i);
            },
            None => {},
        }
        c = c + 1;
    }
    Err(ReplayError::BranchNotFound)
}

/// The parents left out when the commit at `pos` has `count` parents: every
/// one but the first, as (position, parent index).
pub open spec fn skipped_parents(pos: usize, count: usize) -> Seq<(usize, usize)> {
    if count <= 1 {
        Seq::empty()
    } else {
        Seq::new((count - 1) as nat, |k: int| (pos, (k + 1) as usize))
    }
}

/// Follows the first parent from the head of a branch, recording each commit
/// visited, newest first.
pub struct FirstParentWalk {
    visited: Vec<Vec<u8>>,
    skipped: Vec<(usize, usize)>,
}

impl FirstParentWalk {
    /// The identifiers visited, newest first.
    pub closed spec fn visited(&self) -> Seq<Seq<u8>> {
        self.visited@.map_values(|v: Vec<u8>| v@)
    }

    /// The parents left out, as (position of the commit, newest first;
    /// index of the parent), one for each parent but the first.
    pub closed spec fn skipped(&self) -> Seq<(usize, usize)> {
        self.skipped@
    }

    /// A walk that has visited nothing.
    pub fn new() -> (r: FirstParentWalk)
        ensures
            r.visited() == Seq::<Seq<u8>>::empty(),
            r.skipped() == Seq::<(usize, usize)>::empty(),
    {
        let r = FirstParentWalk { visited: Vec::new(), skipped: Vec::new() };
        assert(r.visited() =~= Seq::<Seq<u8>>::empty());
        r
    }

    /// Visits the commit `cid`, which has `parent_count` parents. Returns
    /// whether its first parent is to be visited next. Each parent but the
    /// first is noted as left out.
    pub fn visit(&mut self, cid: Vec<u8>, parent_count: usize) -> (r: bool)
        ensures
            r == (parent_count > 0),
            final(self).visited() == old(self).visited().push(cid@),
            final(self).skipped() == old(self).skipped().add(
                skipped_parents(old(self).visited().len() as usize, parent_count),
            ),
    {
        let ghost c = cid@;
        let ghost s0 = self.skipped@;
        let pos = self.visited.len();
        let mut k: usize = 1;
        while k < parent_count
            invariant
                1 <= k,
                k <= parent_count || k == 1,
                self.visited@ == old(self).visited@,
                pos == self.visited@.len(),
                self.skipped@ == s0.add(
                    if k <= 1 { Seq::<(usize, usize)>::empty() } else { skipped_parents(pos, k) },
                ),
            decreases parent_count - k,
        {
            let ghost before = self.skipped@;
            self.skipped.push((pos, k));
            assert(skipped_parents(pos, (k + 1) as usize) =~=
                (if k <= 1 { Seq::<(usize, usize)>::empty() } else { skipped_parents(pos, k) }).push((pos, k)));
            k = k + 1;
        }
        if parent_count <= 1 {
            assert(k == 1);
            assert(skipped_parents(pos, parent_count) =~= Seq::<(usize, usize)>::empty());
            assert(self.skipped@ =~= s0);
            assert(self.skipped@ =~= s0.add(skipped_parents(pos, parent_count)));
        } else {
            assert(k == parent_count);
        }
        self.visited.push(cid);
        assert(self.visited() =~= old(self).visited().push(c));
        parent_count > 0
    }

    /// The number of commits visited.
    pub fn len(&self) -> (r: usize)
        ensures
            r == self.visited().len(),
    {
        self.visited.len()
    }

    /// The parents left out so far, as (position of the commit, newest
    /// first; index of the parent).
    pub fn skipped_parents(&self) -> (r: Vec<(usize, usize)>)
        ensures
            r@ == self.skipped(),
    {
        let mut r: Vec<(usize, usize)> = Vec::new();
        let mut i: usize = 0;
        while i < self.skipped.len()
            invariant
                0 <= i <= self.skipped@.len(),
                r@ == self.skipped@.take(i as int),
            decreases self.skipped@.len() - i,
        {
            r.push(self.skipped[i]);
            assert(r@ =~= self.skipped@.take(i + 1));
            i = i + 1;
        }
        assert(self.skipped@.take(i as int) =~= self.skipped@);
        r
    }

    /// The commits visited, in the order of replay: oldest first.
    pub fn into_replay_order(self) -> (r: Vec<Vec<u8>>)
        ensures
            r@.map_values(|v: Vec<u8>| v@) == self.visited().reverse(),
    {
        let ghost seen = self.visited();
        let mut visited = self.visited;
        let mut r: Vec<Vec<u8>> = Vec::new();
        while visited.len() > 0
            invariant
                seen == visited@.map_values(|v: Vec<u8>| v@).add(r@.map_values(|v: Vec<u8>| v@).reverse()),
            decreases visited@.len(),
        {
            let ghost before = r@.map_values(|v: Vec<u8>| v@);
            let ghost rest = visited@.map_values(|v: Vec<u8>| v@);
            let v = visited.pop().unwrap();
            r.push(v);
            assert(r@.map_values(|v: Vec<u8>| v@) =~= before.push(rest.last()));
            assert(before.push(rest.last()).reverse() =~= seq![rest.last()].add(before.reverse()));
            assert(rest =~= visited@.map_values(|v: Vec<u8>| v@).push(rest.last()));
            assert(seen =~= visited@.map_values(|v: Vec<u8>| v@).add(r@.map_values(|v: Vec<u8>| v@).reverse()));
        }
        assert(seen =~= r@.map_values(|v: Vec<u8>| v@).reverse());
        assert(seen.reverse() =~= r@.map_values(|v: Vec<u8>| v@));
        r
    }
}

} // verus!
