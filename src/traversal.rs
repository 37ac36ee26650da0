//! Flattens a commit's tree, one listing at a time, into entries with full
//! paths. The store lists each tree; the traversal decides which tree to list
//! next and what each entry's path is.
use vstd::prelude::*;

use crate::copier::{items_model, EntryKind, TreeItem};

verus! {

/// The path of `name` inside the directory `prefix`; the root is the empty
/// prefix.
pub open spec fn join_path(prefix: Seq<u8>, name: Seq<u8>) -> Seq<u8> {
    if prefix.len() == 0 {
        name
    } else {
        prefix.push(0x2f).add(name)
    }
}

/// The path of `name` inside the directory `prefix`.
pub fn join(prefix: &Vec<u8>, name: &Vec<u8>) -> (r: Vec<u8>)
    ensures
        r@ == join_path(prefix@, name@),
{
    let mut r: Vec<u8> = prefix.clone();
    if prefix.len() > 0 {
        r.push(0x2f);
    }
    let ghost start = r@;
    let mut i: usize = 0;
    while i < name.len()
        invariant
            0 <= i <= name@.len(),
            r@ == start.add(name@.take(i as int)),
        decreases name@.len() - i,
    {
        r.push(name[i]);
        assert(name@.take(i + 1) =~= name@.take(i as int).push(name@[i as int]));
        assert(r@ =~= start.add(name@.take(i + 1)));
        i = i + 1;
    }
    assert(name@.take(name@.len() as int) =~= name@);
    assert(prefix@.len() == 0 ==> r@ =~= name@);
    r
}

/// The entries of one listing, with their full paths.
pub open spec fn listed_items(
    prefix: Seq<u8>,
    entries: Seq<(Seq<u8>, Seq<u8>, EntryKind)>,
) -> Seq<(Seq<u8>, Seq<u8>, EntryKind)> {
    entries.map_values(|e: (Seq<u8>, Seq<u8>, EntryKind)| (join_path(prefix, e.0), e.1, e.2))
}

/// The subtrees of one listing, as (path, identifier), in order.
pub open spec fn listed_subtrees(
    prefix: Seq<u8>,
    entries: Seq<(Seq<u8>, Seq<u8>, EntryKind)>,
) -> Seq<(Seq<u8>, Seq<u8>)>
    decreases entries.len(),
{
    if entries.len() == 0 {
        Seq::empty()
    } else {
        let rest = listed_subtrees(prefix, entries.drop_last());
        let e = entries.last();
        if e.2 == EntryKind::Tree {
            rest.push((join_path(prefix, e.0), e.1))
        } else {
            rest
        }
    }
}

/// A breadth-first walk over a tree: the trees still to list, and the
/// entries found so far. Each directory comes before what it holds.
pub struct TreeTraversal {
    pending: Vec<(Vec<u8>, Vec<u8>)>,
    items: Vec<TreeItem>,
}

impl TreeTraversal {
    /// The trees still to list, as (path, identifier), first to list first.
    pub closed spec fn pending(&self) -> Seq<(Seq<u8>, Seq<u8>)> {
        self.pending@.map_values(|p: (Vec<u8>, Vec<u8>)| (p.0@, p.1@))
    }

    /// The entries found so far, with their full paths.
    pub closed spec fn found(&self) -> Seq<(Seq<u8>, Seq<u8>, EntryKind)> {
        items_model(self.items@)
    }

    /// A walk over the tree `root`, which is listed first, at the empty path.
    pub fn new(root: Vec<u8>) -> (r: TreeTraversal)
        ensures
            r.pending() == seq![(Seq::<u8>::empty(), root@)],
            r.found() == Seq::<(Seq<u8>, Seq<u8>, EntryKind)>::empty(),
    {
        let mut pending: Vec<(Vec<u8>, Vec<u8>)> = Vec::new();
        pending.push((Vec::new(), root));
        let r = TreeTraversal { pending, items: Vec::new() };
        assert(r.pending() =~= seq![(Seq::<u8>::empty(), r.pending@[0].1@)]);
        assert(r.found() =~= Seq::<(Seq<u8>, Seq<u8>, EntryKind)>::empty());
        r
    }

    /// The tree to list next, as (path, identifier), or none when the walk is
    /// complete.
    pub fn next_tree(&self) -> (r: Option<(Vec<u8>, Vec<u8>)>)
        ensures
            match r {
                Some(t) => self.pending().len() > 0 && (t.0@, t.1@) == self.pending()[0],
                None => self.pending().len() == 0,
            },
    {
        if self.pending.len() == 0 {
            None
        } else {
            let (p, c) = &self.pending[0];
            Some((p.clone(), c.clone()))
        }
    }

    /// Takes the listing of the tree that `next_tree` named: its entries,
    /// each named relative to that tree, are found at their full paths, and
    /// its subtrees are queued for listing.
    pub fn listed(&mut self, entries: &Vec<TreeItem>)
        requires
            old(self).pending().len() > 0,
        ensures
            final(self).found() == old(self).found().add(
                listed_items(old(self).pending()[0].0, items_model(entries@)),
            ),
            final(self).pending() == old(self).pending().drop_first().add(
                listed_subtrees(old(self).pending()[0].0, items_model(entries@)),
            ),
    {
        let ghost model = items_model(entries@);
        let ghost found0 = self.found();
        let ghost pending0 = self.pending();
        let (prefix, _) = self.pending.remove(0);
        assert(self.pending() =~= pending0.drop_first());
        let ghost rest = self.pending();
        let mut k: usize = 0;
        while k < entries.len()
            invariant
                0 <= k <= entries@.len(),
                model == items_model(entries@),
                prefix@ == pending0[0].0,
                self.found() == found0.add(listed_items(prefix@, model.take(k as int))),
                self.pending() == rest.add(listed_subtrees(prefix@, model.take(k as int))),
            decreases entries@.len() - k,
        {
            let e = &entries[k];
            let path = join(&prefix, &e.path);
            let ghost fb = self.found();
            let ghost pb = self.pending();
            assert(model.take(k + 1).drop_last() =~= model.take(k as int));
            assert(model.take(k + 1).last() == model[k as int]);
            if e.kind == EntryKind::Tree {
                let sub = (path.clone(), e.cid.clone());
                self.pending.push(sub);
                assert(self.pending() =~= pb.push((path@, e.cid@)));
            }
            self.items.push(TreeItem { path, cid: e.cid.clone(), kind: e.kind });
            assert(self.found() =~= fb.push((join_path(prefix@, e.path@), e.cid@, e.kind)));
            assert(listed_items(prefix@, model.take(k + 1))
                =~= listed_items(prefix@, model.take(k as int)).push((join_path(prefix@, e.path@), e.cid@, e.kind)));
            k = k + 1;
        }
        assert(model.take(entries@.len() as int) =~= model);
    }

    /// The entries found, with their full paths, in the order found.
    pub fn into_items(self) -> (r: Vec<TreeItem>)
        ensures
            items_model(r@) == self.found(),
    {
        self.items
    }
}

} // verus!
