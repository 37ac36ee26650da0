//! Replays the commits in order, threading each new target commit forward as
//! the parent of the next.
use vstd::prelude::*;

use crate::error::ReplayError;

verus! {

/// Where a run stands.
#[derive(Clone, Debug)]
pub enum DriverState {
    Idle,
    /// The commit at this position is being replayed.
    Replaying { index: usize },
    Done,
    /// The run stopped; `last_replicated` is the position of the last source
    /// commit that was replicated, if any.
    Failed { error: ReplayError, last_replicated: Option<usize> },
}

/// What the driver asks for next.
#[derive(Clone, Debug)]
pub enum DriverStep {
    /// Copy the tree of the source commit at `index`, then commit it with
    /// these target parents.
    Replay { index: usize, parents: Vec<Vec<u8>> },
    /// Nothing is left to replay.
    Finished,
    /// The run stopped.
    Halted,
}

/// The target parents of the `i`-th replayed commit: none for the first,
/// the previous target commit for every other.
pub open spec fn chain_parents(targets: Seq<Seq<u8>>, i: int) -> Seq<Seq<u8>> {
    if i == 0 {
        Seq::empty()
    } else {
        seq![targets[i - 1]]
    }
}

/// A replication run over `total` source commits, oldest first.
pub struct Replication {
    total: usize,
    targets: Vec<Vec<u8>>,
    state: DriverState,
}

impl Replication {
    /// The number of source commits to replay.
    pub closed spec fn total(&self) -> nat {
        self.total as nat
    }

    /// The target commits created so far, in order.
    pub closed spec fn targets(&self) -> Seq<Seq<u8>> {
        self.targets@.map_values(|t: Vec<u8>| t@)
    }

    pub closed spec fn state(&self) -> DriverState {
        self.state
    }

    pub closed spec fn wf(&self) -> bool {
        &&& self.targets@.len() <= self.total
        &&& match self.state {
            DriverState::Idle => self.targets@.len() == 0,
            DriverState::Replaying { index } => index == self.targets@.len() && index < self.total,
            DriverState::Done => self.targets@.len() == self.total,
            DriverState::Failed { last_replicated, .. } => match last_replicated {
                Some(l) => l + 1 == self.targets@.len(),
                None => self.targets@.len() == 0,
            },
        }
    }

    /// A run that has not started.
    pub fn new(total: usize) -> (r: Replication)
        ensures
            r.wf(),
            r.total() == total,
            r.state() is Idle,
            r.targets() == Seq::<Seq<u8>>::empty(),
    {
        let r = Replication { total, targets: Vec::new(), state: DriverState::Idle };
        assert(r.targets() =~= Seq::<Seq<u8>>::empty());
        r
    }

    /// Starts the run: at the first commit, or done at once if there is none.
    pub fn start(&mut self)
        requires
            old(self).wf(),
            old(self).state() is Idle,
        ensures
            final(self).wf(),
            final(self).total() == old(self).total(),
            final(self).targets() == old(self).targets(),
            if old(self).total() == 0 {
                final(self).state() is Done
            } else {
                final(self).state() == (DriverState::Replaying { index: 0 })
            },
    {
        if self.total == 0 {
            self.state = DriverState::Done;
        } else {
            self.state = DriverState::Replaying { index: 0 };
        }
    }

    /// What to do next. While replaying the commit at `i`, its parents are
    /// the previous target commit, or none for the first.
    pub fn next_step(&self) -> (r: DriverStep)
        requires
            self.wf(),
            !(self.state() is Idle),
        ensures
            match self.state() {
                DriverState::Replaying { index } => match r {
                    DriverStep::Replay { index: i, parents } => i == index
                        && parents@.map_values(|p: Vec<u8>| p@) == chain_parents(self.targets(), index as int),
                    _ => false,
                },
                DriverState::Done => r is Finished,
                _ => r is Halted,
            },
    {
        match &self.state {
            DriverState::Replaying { index } => {
                let mut parents: Vec<Vec<u8>> = Vec::new();
                if *index > 0 {
                    parents.push(self.targets[*index - 1].clone());
                }
                assert(parents@.map_values(|p: Vec<u8>| p@) =~= chain_parents(self.targets(), *index as int));
                DriverStep::Replay { index: *index, parents }
            },
            DriverState::Done => DriverStep::Finished,
            _ => DriverStep::Halted,
        }
    }

    /// The commit being replayed was created in the target store as
    /// `target`: move on to the next one, or finish after the last.
    pub fn replicated(&mut self, target: Vec<u8>)
        requires
            old(self).wf(),
            old(self).state() is Replaying,
        ensures
            final(self).wf(),
            final(self).total() == old(self).total(),
            final(self).targets() == old(self).targets().push(target@),
            final(self).state() == if old(self).targets().len() + 1 == old(self).total() {
                DriverState::Done
            } else {
                DriverState::Replaying { index: (old(self).targets().len() + 1) as usize }
            },
    {
        let ghost t = target@;
        let ghost before = self.targets();
        let n = self.targets.len();
        self.targets.push(target);
        assert(self.targets() =~= before.push(t));
        if n + 1 == self.total {
            self.state = DriverState::Done;
        } else {
            self.state = DriverState::Replaying { index: n + 1 };
        }
    }

    /// The commit being replayed could not be replicated: the run stops,
    /// keeping the target commits already created.
    pub fn failed(&mut self, error: ReplayError)
        requires
            old(self).wf(),
            old(self).state() is Replaying,
        ensures
            final(self).wf(),
            final(self).total() == old(self).total(),
            final(self).targets() == old(self).targets(),
            final(self).state() == (DriverState::Failed {
                error,
                last_replicated: if old(self).targets().len() == 0 {
                    None
                } else {
                    Some((old(self).targets().len() - 1) as usize)
                },
            }),
    {
        let n = self.targets.len();
        let last = if n == 0 { None } else { Some(n - 1) };
        self.state = DriverState::Failed { error, last_replicated: last };
    }

    /// The target commits created so far, in order.
    pub fn target_commits(&self) -> (r: Vec<Vec<u8>>)
        ensures
            r@.map_values(|t: Vec<u8>| t@) == self.targets(),
    {
        let mut r: Vec<Vec<u8>> = Vec::new();
        let mut i: usize = 0;
        while i < self.targets.len()
            invariant
                0 <= i <= self.targets@.len(),
                r@.map_values(|t: Vec<u8>| t@) == self.targets().take(i as int),
            decreases self.targets@.len() - i,
        {
            let ghost before = r@.map_values(|t: Vec<u8>| t@);
            let t = self.targets[i].clone();
            assert(t@ == self.targets()[i as int]);
            r.push(t);
            assert(r@.map_values(|t: Vec<u8>| t@) =~= before.push(self.targets()[i as int]));
            assert(r@.map_values(|t: Vec<u8>| t@) =~= self.targets().take(i + 1));
            i = i + 1;
        }
        assert(self.targets().take(i as int) =~= self.targets());
        r
    }

    /// The position of the last source commit replicated so far, if any.
    pub fn last_replicated(&self) -> (r: Option<usize>)
        ensures
            r == if self.targets().len() == 0 {
                None
            } else {
                Some((self.targets().len() - 1) as usize)
            },
    {
        if self.targets.len() == 0 {
            None
        } else {
            Some(self.targets.len() - 1)
        }
    }

    /// Whether every commit has been replayed.
    pub fn is_done(&self) -> (r: bool)
        ensures
            r == self.state() is Done,
    {
        match self.state {
            DriverState::Done => true,
            _ => false,
        }
    }
}

/// Ordering: a run that is done over `n` source commits has created `n`
/// target commits, one for each source commit in order. The parents handed
/// out for the `i`-th, computed from the `i` target commits created before
/// it, are none for the first and, for every other, the target commit
/// created just before it alone.
pub proof fn lemma_chain_mirrors_history(r: Replication)
    requires
        r.wf(),
        r.state() is Done,
    ensures
        r.targets().len() == r.total(),
        r.total() > 0 ==> chain_parents(r.targets().take(0), 0) == Seq::<Seq<u8>>::empty(),
        forall|i: int| 0 < i < r.total()
            ==> #[trigger] chain_parents(r.targets().take(i), i) == seq![r.targets()[i - 1]],
{
    assert forall|i: int| 0 < i < r.total()
        implies #[trigger] chain_parents(r.targets().take(i), i) == seq![r.targets()[i - 1]] by {
        assert(r.targets().take(i)[i - 1] == r.targets()[i - 1]);
    }
}

} // verus!
