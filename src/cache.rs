//! The record of what has been written where: path to content identifier.
use vstd::prelude::*;

use crate::bytes::position_of;

verus! {

/// Maps each path written so far to the content identifier of the blob last
/// written there. Entries are only added or overwritten, never removed.
pub struct ObjectCache {
    paths: Vec<Vec<u8>>,
    cids: Vec<Vec<u8>>,
}

impl View for ObjectCache {
    type V = Map<Seq<u8>, Seq<u8>>;

    closed spec fn view(&self) -> Map<Seq<u8>, Seq<u8>> {
        Map::new(
            |p: Seq<u8>| exists|i: int| 0 <= i < self.paths@.len() && self.paths@[i]@ == p,
            |p: Seq<u8>| self.cids@[choose|i: int| 0 <= i < self.paths@.len() && self.paths@[i]@ == p]@,
        )
    }
}

impl ObjectCache {
    /// The paths are distinct and each has its identifier.
    pub closed spec fn wf(&self) -> bool {
        &&& self.paths@.len() == self.cids@.len()
        &&& forall|i: int, j: int|
            0 <= i < self.paths@.len() && 0 <= j < self.paths@.len() && i != j
                ==> self.paths@[i]@ != self.paths@[j]@
    }

    proof fn lemma_entry(&self, i: int)
        requires
            self.wf(),
            0 <= i < self.paths@.len(),
        ensures
            self@.contains_key(self.paths@[i]@),
            self@[self.paths@[i]@] == self.cids@[i]@,
    {
        let p = self.paths@[i]@;
        assert(self@.contains_key(p));
        let j = choose|j: int| 0 <= j < self.paths@.len() && self.paths@[j]@ == p;
        assert(j == i);
    }

    /// An empty record.
    pub fn new() -> (r: ObjectCache)
        ensures
            r.wf(),
            r@ == Map::<Seq<u8>, Seq<u8>>::empty(),
    {
        let r = ObjectCache { paths: Vec::new(), cids: Vec::new() };
        assert(r@ =~= Map::<Seq<u8>, Seq<u8>>::empty());
        r
    }

    /// The identifier last recorded for `path`, if any.
    pub fn lookup(&self, path: &Vec<u8>) -> (r: Option<Vec<u8>>)
        requires
            self.wf(),
        ensures
            match r {
                Some(c) => self@.contains_key(path@) && self@[path@] == c@,
                None => !self@.contains_key(path@),
            },
    {
        match position_of(&self.paths, path) {
            Some(i) => {
                proof {
                    self.lemma_entry(i as int);
                }
                Some(self.cids[i].clone())
            },
            None => None,
        }
    }

    /// Records that `path` now holds the blob `cid`.
    pub fn record(&mut self, path: Vec<u8>, cid: Vec<u8>)
        requires
            old(self).wf(),
        ensures
            final(self).wf(),
            final(self)@ == old(self)@.insert(path@, cid@),
    {
        let ghost before = self@;
        match position_of(&self.paths, &path) {
            Some(i) => {
                self.cids.set(i, cid);
                proof {
                    assert forall|p: Seq<u8>| #[trigger] self@.contains_key(p) implies
                        before.insert(path@, cid@).contains_key(p) && self@[p] == before.insert(path@, cid@)[p] by {
                        let k = choose|k: int| 0 <= k < self.paths@.len() && self.paths@[k]@ == p;
                        self.lemma_entry(k);
                        old(self).lemma_entry(k);
                    }
                    assert forall|p: Seq<u8>| #[trigger] before.insert(path@, cid@).contains_key(p)
                        implies self@.contains_key(p) by {
                        if p != path@ {
                            let k = choose|k: int| 0 <= k < old(self).paths@.len() && old(self).paths@[k]@ == p;
                            assert(self.paths@[k]@ == p);
                        } else {
                            assert(self.paths@[i as int]@ == p);
                        }
                    }
                    assert(self@ =~= before.insert(path@, cid@));
                }
            },
            None => {
                self.paths.push(path);
                self.cids.push(cid);
                proof {
                    let n = self.paths@.len() - 1;
                    assert forall|p: Seq<u8>| #[trigger] self@.contains_key(p) implies
                        before.insert(path@, cid@).contains_key(p) && self@[p] == before.insert(path@, cid@)[p] by {
                        let k = choose|k: int| 0 <= k < self.paths@.len() && self.paths@[k]@ == p;
                        self.lemma_entry(k);
                        if k < n {
                            old(self).lemma_entry(k);
                        }
                    }
                    assert forall|p: Seq<u8>| #[trigger] before.insert(path@, cid@).contains_key(p)
                        implies self@.contains_key(p) by {
                        if p != path@ {
                            let k = choose|k: int| 0 <= k < old(self).paths@.len() && old(self).paths@[k]@ == p;
                            assert(self.paths@[k]@ == p);
                        } else {
                            assert(self.paths@[n]@ == p);
                        }
                    }
                    assert(self@ =~= before.insert(path@, cid@));
                }
            },
        }
    }
}

/// The directories that have been created so far.
pub struct DirRecord {
    paths: Vec<Vec<u8>>,
}

impl View for DirRecord {
    type V = Set<Seq<u8>>;

    closed spec fn view(&self) -> Set<Seq<u8>> {
        Set::new(|p: Seq<u8>| exists|i: int| 0 <= i < self.paths@.len() && self.paths@[i]@ == p)
    }
}

impl DirRecord {
    /// No directory yet.
    pub fn new() -> (r: DirRecord)
        ensures
            r@ == Set::<Seq<u8>>::empty(),
    {
        let r = DirRecord { paths: Vec::new() };
        assert(r@ =~= Set::<Seq<u8>>::empty());
        r
    }

    /// Whether `path` has been created.
    pub fn contains(&self, path: &Vec<u8>) -> (r: bool)
        ensures
            r == self@.contains(path@),
    {
        match position_of(&self.paths, path) {
            Some(i) => {
                assert(self@.contains(self.paths@[i as int]@));
                true
            },
            None => false,
        }
    }

    /// Notes that `path` has been created.
    pub fn insert(&mut self, path: Vec<u8>)
        ensures
            final(self)@ == old(self)@.insert(path@),
    {
        self.paths.push(path);
        proof {
            let n = self.paths@.len() - 1;
            assert forall|p: Seq<u8>| #[trigger] old(self)@.insert(path@).contains(p)
                implies self@.contains(p) by {
                if p == path@ {
                    assert(self.paths@[n]@ == p);
                } else {
                    let k = choose|k: int| 0 <= k < old(self).paths@.len() && old(self).paths@[k]@ == p;
                    assert(self.paths@[k]@ == p);
                }
            }
            assert forall|p: Seq<u8>| #[trigger] self@.contains(p)
                implies old(self)@.insert(path@).contains(p) by {
                let k = choose|k: int| 0 <= k < self.paths@.len() && self.paths@[k]@ == p;
                if k < n {
                    assert(old(self).paths@[k]@ == p);
                }
            }
            assert(self@ =~= old(self)@.insert(path@));
        }
    }
}

} // verus!
