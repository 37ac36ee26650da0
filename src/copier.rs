//! Mirrors a commit's tree into the target working tree, writing only the
//! blobs whose content changed at their path.
use vstd::prelude::*;

use crate::bytes::bytes_eq;
use crate::cache::{DirRecord, ObjectCache};
use crate::error::ReplayError;

verus! {

/// What a tree entry holds.
#[derive(Clone, Copy, Debug, PartialEq, Eq, Structural)]
pub enum EntryKind {
    Blob,
    Tree,
    /// Anything else: a link, a submodule.
    Other,
}

/// One entry of a commit's tree, with its full path from the root. A tree is
/// handed over flattened in pre-order: each directory before what it holds.
#[derive(Clone, Debug)]
pub struct TreeItem {
    pub path: Vec<u8>,
    pub cid: Vec<u8>,
    pub kind: EntryKind,
}

impl View for TreeItem {
    type V = (Seq<u8>, Seq<u8>, EntryKind);

    open spec fn view(&self) -> (Seq<u8>, Seq<u8>, EntryKind) {
        (self.path@, self.cid@, self.kind)
    }
}

/// A change to the target working tree.
#[derive(Clone, Debug)]
pub enum CopyAction {
    /// Create the directory at this path.
    CreateDir { path: Vec<u8> },
    /// Write the blob `cid` to this path and stage the path.
    WriteBlob { path: Vec<u8>, cid: Vec<u8> },
}

/// A change to the target working tree, as a value.
pub enum ActionModel {
    CreateDir(Seq<u8>),
    WriteBlob(Seq<u8>, Seq<u8>),
}

impl View for CopyAction {
    type V = ActionModel;

    open spec fn view(&self) -> ActionModel {
        match self {
            CopyAction::CreateDir { path } => ActionModel::CreateDir(path@),
            CopyAction::WriteBlob { path, cid } => ActionModel::WriteBlob(path@, cid@),
        }
    }
}

/// The tree as values.
pub open spec fn items_model(items: Seq<TreeItem>) -> Seq<(Seq<u8>, Seq<u8>, EntryKind)> {
    items.map_values(|t: TreeItem| t@)
}

/// The actions as values.
pub open spec fn actions_model(actions: Seq<CopyAction>) -> Seq<ActionModel> {
    actions.map_values(|a: CopyAction| a@)
}

/// The state of a copy: actions so far, file record, directory record.
pub type CopyState = (Seq<ActionModel>, Map<Seq<u8>, Seq<u8>>, Set<Seq<u8>>);

/// One entry's effect. A blob already recorded at its path with the same
/// identifier, and a directory already created, change nothing.
pub open spec fn copy_step(s: CopyState, item: (Seq<u8>, Seq<u8>, EntryKind)) -> CopyState {
    let (path, cid, kind) = item;
    match kind {
        EntryKind::Blob => if s.1.contains_key(path) && s.1[path] == cid {
            s
        } else {
            (s.0.push(ActionModel::WriteBlob(path, cid)), s.1.insert(path, cid), s.2)
        },
        EntryKind::Tree => if s.2.contains(path) {
            s
        } else {
            (s.0.push(ActionModel::CreateDir(path)), s.1, s.2.insert(path))
        },
        EntryKind::Other => s,
    }
}

/// The effect of the entries, in order, from records `files` and `dirs`.
pub open spec fn copy_plan(
    items: Seq<(Seq<u8>, Seq<u8>, EntryKind)>,
    files: Map<Seq<u8>, Seq<u8>>,
    dirs: Set<Seq<u8>>,
) -> CopyState
    decreases items.len(),
{
    if items.len() == 0 {
        (Seq::empty(), files, dirs)
    } else {
        copy_step(copy_plan(items.drop_last(), files, dirs), items.last())
    }
}

/// The paths a plan stages: those of its writes, in order.
pub open spec fn staged_of(actions: Seq<ActionModel>) -> Seq<Seq<u8>>
    decreases actions.len(),
{
    if actions.len() == 0 {
        Seq::empty()
    } else {
        let rest = staged_of(actions.drop_last());
        match actions.last() {
            ActionModel::WriteBlob(p, _) => rest.push(p),
            ActionModel::CreateDir(_) => rest,
        }
    }
}

/// The paths that `actions` stage into the index: those of its writes, in
/// order. Directories are never staged.
pub fn staged_paths(actions: &Vec<CopyAction>) -> (r: Vec<Vec<u8>>)
    ensures
        r@.map_values(|p: Vec<u8>| p@) == staged_of(actions_model(actions@)),
{
    let ghost model = actions_model(actions@);
    let mut r: Vec<Vec<u8>> = Vec::new();
    let mut i: usize = 0;
    while i < actions.len()
        invariant
            0 <= i <= actions@.len(),
            model == actions_model(actions@),
            r@.map_values(|p: Vec<u8>| p@) == staged_of(model.take(i as int)),
        decreases actions@.len() - i,
    {
        assert(model.take(i + 1).drop_last() =~= model.take(i as int));
        let ghost before = r@.map_values(|p: Vec<u8>| p@);
        match &actions[i] {
            CopyAction::WriteBlob { path, .. } => {
                let p = path.clone();
                r.push(p);
                assert(r@.map_values(|p: Vec<u8>| p@) =~= before.push(path@));
            },
            CopyAction::CreateDir { .. } => {},
        }
        i = i + 1;
    }
    assert(model.take(actions@.len() as int) =~= model);
    r
}

/// Whether some entry is neither a blob nor a tree.
pub open spec fn has_unsupported(items: Seq<(Seq<u8>, Seq<u8>, EntryKind)>) -> bool {
    exists|i: int| 0 <= i < items.len() && items[i].2 == EntryKind::Other
}

/// Whether `e` reports an unsupported entry at `path`.
pub open spec fn unsupported_at(e: ReplayError, path: Seq<u8>) -> bool {
    match e {
        ReplayError::UnsupportedObjectKind { path: p } => p@ == path,
        _ => false,
    }
}

/// Holds the records of one run: the identifier last written at each path
/// and the directories created.
pub struct TreeCopier {
    files: ObjectCache,
    dirs: DirRecord,
}

impl TreeCopier {
    pub closed spec fn wf(&self) -> bool {
        self.files.wf()
    }

    /// The identifier last written at each path.
    pub closed spec fn files(&self) -> Map<Seq<u8>, Seq<u8>> {
        self.files@
    }

    /// The directories created.
    pub closed spec fn dirs(&self) -> Set<Seq<u8>> {
        self.dirs@
    }

    /// A copier for a fresh, empty working tree.
    pub fn new() -> (r: TreeCopier)
        ensures
            r.wf(),
            r.files() == Map::<Seq<u8>, Seq<u8>>::empty(),
            r.dirs() == Set::<Seq<u8>>::empty(),
    {
        TreeCopier { files: ObjectCache::new(), dirs: DirRecord::new() }
    }

    /// The identifier last written at `path`, if any.
    pub fn recorded(&self, path: &Vec<u8>) -> (r: Option<Vec<u8>>)
        requires
            self.wf(),
        ensures
            match r {
                Some(c) => self.files().contains_key(path@) && self.files()[path@] == c@,
                None => !self.files().contains_key(path@),
            },
    {
        self.files.lookup(path)
    }

    /// Plans the copy of one commit's tree: the directories to create and the
    /// blobs to write, in the tree's order, skipping every blob whose path
    /// already holds the same identifier and every directory already created.
    /// The records are left as they are: each action is recorded by
    /// `carried_out` once it has been performed. An entry that is neither
    /// blob nor tree fails the whole tree, naming the first such path.
    pub fn copy_tree(&self, items: &Vec<TreeItem>) -> (r: Result<Vec<CopyAction>, ReplayError>)
        requires
            self.wf(),
        ensures
            match r {
                Ok(actions) => {
                    &&& !has_unsupported(items_model(items@))
                    &&& actions_model(actions@) == copy_plan(items_model(items@), self.files(), self.dirs()).0
                },
                Err(e) => exists|i: int|
                    0 <= i < items@.len() && items@[i].kind == EntryKind::Other
                        && unsupported_at(e, items@[i].path@)
                        && (forall|k: int| 0 <= k < i ==> items@[k].kind != EntryKind::Other),
            },
    {
        let ghost model = items_model(items@);
        let mut i: usize = 0;
        while i < items.len()
            invariant
                0 <= i <= items@.len(),
                forall|k: int| 0 <= k < i ==> items@[k].kind != EntryKind::Other,
            decreases items@.len() - i,
        {
            if items[i].kind == EntryKind::Other {
                return Err(ReplayError::UnsupportedObjectKind { path: items[i].path.clone() });
            }
            i = i + 1;
        }
        assert(!has_unsupported(model));
        let mut actions: Vec<CopyAction> = Vec::new();
        let mut planned_files = ObjectCache::new();
        let mut planned_dirs = DirRecord::new();
        assert(self.files().union_prefer_right(planned_files@) =~= self.files());
        assert(self.dirs().union(planned_dirs@) =~= self.dirs());
        let mut j: usize = 0;
        while j < items.len()
            invariant
                0 <= j <= items@.len(),
                model == items_model(items@),
                self.wf(),
                planned_files.wf(),
                copy_plan(model.take(j as int), self.files(), self.dirs()) == (
                    actions_model(actions@),
                    self.files().union_prefer_right(planned_files@),
                    self.dirs().union(planned_dirs@),
                ),
            decreases items@.len() - j,
        {
            let item = &items[j];
            assert(model.take(j + 1).drop_last() =~= model.take(j as int));
            let ghost before = actions_model(actions@);
            let ghost fb = planned_files@;
            let ghost db = planned_dirs@;
            match item.kind {
                EntryKind::Blob => {
                    let current = match planned_files.lookup(&item.path) {
                        Some(c) => Some(c),
                        None => self.files.lookup(&item.path),
                    };
                    let same = match current {
                        Some(c) => bytes_eq(&c, &item.cid),
                        None => false,
                    };
                    if !same {
                        actions.push(CopyAction::WriteBlob { path: item.path.clone(), cid: item.cid.clone() });
                        planned_files.record(item.path.clone(), item.cid.clone());
                        assert(actions_model(actions@) =~= before.push(ActionModel::WriteBlob(item.path@, item.cid@)));
                        assert(self.files().union_prefer_right(planned_files@)
                            =~= self.files().union_prefer_right(fb).insert(item.path@, item.cid@));
                    }
                },
                EntryKind::Tree => {
                    if !planned_dirs.contains(&item.path) && !self.dirs.contains(&item.path) {
                        actions.push(CopyAction::CreateDir { path: item.path.clone() });
                        planned_dirs.insert(item.path.clone());
                        assert(actions_model(actions@) =~= before.push(ActionModel::CreateDir(item.path@)));
                        assert(self.dirs().union(planned_dirs@) =~= self.dirs().union(db).insert(item.path@));
                    }
                },
                EntryKind::Other => {},
            }
            j = j + 1;
        }
        assert(model.take(items@.len() as int) =~= model);
        Ok(actions)
    }

    /// Records an action of a plan once it has been performed: a blob
    /// written at its path, or a directory created.
    pub fn carried_out(&mut self, action: &CopyAction)
        requires
            old(self).wf(),
        ensures
            final(self).wf(),
            (final(self).files(), final(self).dirs()) == apply_action((old(self).files(), old(self).dirs()), action@),
    {
        match action {
            CopyAction::WriteBlob { path, cid } => {
                self.files.record(path.clone(), cid.clone());
            },
            CopyAction::CreateDir { path } => {
                self.dirs.insert(path.clone());
            },
        }
    }
}

/// The records after `a` has been performed and recorded.
pub open spec fn apply_action(
    s: (Map<Seq<u8>, Seq<u8>>, Set<Seq<u8>>),
    a: ActionModel,
) -> (Map<Seq<u8>, Seq<u8>>, Set<Seq<u8>>) {
    match a {
        ActionModel::WriteBlob(p, c) => (s.0.insert(p, c), s.1),
        ActionModel::CreateDir(p) => (s.0, s.1.insert(p)),
    }
}

/// The records after each of `actions` has been performed and recorded, in
/// order.
pub open spec fn apply_actions(
    files: Map<Seq<u8>, Seq<u8>>,
    dirs: Set<Seq<u8>>,
    actions: Seq<ActionModel>,
) -> (Map<Seq<u8>, Seq<u8>>, Set<Seq<u8>>)
    decreases actions.len(),
{
    if actions.len() == 0 {
        (files, dirs)
    } else {
        apply_action(apply_actions(files, dirs, actions.drop_last()), actions.last())
    }
}

/// Carrying out a plan and recording each of its actions leaves the records
/// that the plan was computed against: the identifier of every blob written
/// at its path, and every directory created.
pub proof fn lemma_plan_carried_out(
    items: Seq<(Seq<u8>, Seq<u8>, EntryKind)>,
    files: Map<Seq<u8>, Seq<u8>>,
    dirs: Set<Seq<u8>>,
)
    ensures
        apply_actions(files, dirs, copy_plan(items, files, dirs).0)
            == (copy_plan(items, files, dirs).1, copy_plan(items, files, dirs).2),
    decreases items.len(),
{
    if items.len() > 0 {
        let prev = items.drop_last();
        lemma_plan_carried_out(prev, files, dirs);
        let s = copy_plan(prev, files, dirs);
        let t = copy_plan(items, files, dirs);
        if t.0.len() > s.0.len() {
            assert(t.0.drop_last() =~= s.0);
        } else {
            assert(t.0 == s.0);
        }
    }
}

/// No two entries of the tree share a path.
pub open spec fn unique_paths(items: Seq<(Seq<u8>, Seq<u8>, EntryKind)>) -> bool {
    forall|i: int, j: int| 0 <= i < items.len() && 0 <= j < items.len() && i != j ==> items[i].0 != items[j].0
}

proof fn lemma_unique_prefix(items: Seq<(Seq<u8>, Seq<u8>, EntryKind)>)
    requires
        items.len() > 0,
        unique_paths(items),
    ensures
        unique_paths(items.drop_last()),
{
    let prev = items.drop_last();
    assert forall|i: int, j: int| 0 <= i < prev.len() && 0 <= j < prev.len() && i != j
        implies prev[i].0 != prev[j].0 by {
        assert(prev[i] == items[i] && prev[j] == items[j]);
    }
}

/// Whether `a` writes a blob to `path`.
pub open spec fn writes_to(a: ActionModel, path: Seq<u8>) -> bool {
    match a {
        ActionModel::WriteBlob(q, _) => q == path,
        _ => false,
    }
}

/// Whether `a` creates the directory `path`.
pub open spec fn creates(a: ActionModel, path: Seq<u8>) -> bool {
    match a {
        ActionModel::CreateDir(q) => q == path,
        _ => false,
    }
}

/// Each action of a plan comes from an entry of the tree: a write carries an
/// entry's path and identifier, a created directory is an entry's path.
pub proof fn lemma_actions_from_entries(
    items: Seq<(Seq<u8>, Seq<u8>, EntryKind)>,
    files: Map<Seq<u8>, Seq<u8>>,
    dirs: Set<Seq<u8>>,
)
    ensures
        forall|k: int| 0 <= k < copy_plan(items, files, dirs).0.len() ==> {
            let a = #[trigger] copy_plan(items, files, dirs).0[k];
            match a {
                ActionModel::WriteBlob(p, c) => exists|i: int|
                    0 <= i < items.len() && #[trigger] items[i] == (p, c, EntryKind::Blob),
                ActionModel::CreateDir(p) => exists|i: int|
                    0 <= i < items.len() && (#[trigger] items[i]).0 == p && items[i].2 == EntryKind::Tree,
            }
        },
    decreases items.len(),
{
    if items.len() > 0 {
        let prev = items.drop_last();
        lemma_actions_from_entries(prev, files, dirs);
        let n = items.len() - 1;
        assert forall|k: int| 0 <= k < copy_plan(items, files, dirs).0.len() implies {
            let a = #[trigger] copy_plan(items, files, dirs).0[k];
            match a {
                ActionModel::WriteBlob(p, c) => exists|i: int|
                    0 <= i < items.len() && #[trigger] items[i] == (p, c, EntryKind::Blob),
                ActionModel::CreateDir(p) => exists|i: int|
                    0 <= i < items.len() && (#[trigger] items[i]).0 == p && items[i].2 == EntryKind::Tree,
            }
        } by {
            let s = copy_plan(prev, files, dirs);
            if k < s.0.len() {
                assert(copy_plan(items, files, dirs).0[k] == s.0[k]);
                match s.0[k] {
                    ActionModel::WriteBlob(p, c) => {
                        let i = choose|i: int| 0 <= i < prev.len() && #[trigger] prev[i] == (p, c, EntryKind::Blob);
                        assert(items[i] == prev[i]);
                    },
                    ActionModel::CreateDir(p) => {
                        let i = choose|i: int| 0 <= i < prev.len() && (#[trigger] prev[i]).0 == p && prev[i].2 == EntryKind::Tree;
                        assert(items[i] == prev[i]);
                    },
                }
            } else {
                assert(items[n] == items.last());
            }
        }
    }
}

/// After a plan over a tree whose paths are distinct, the file record holds
/// each blob of the tree at its path, and each directory of the tree exists.
pub proof fn lemma_plan_records_tree(
    items: Seq<(Seq<u8>, Seq<u8>, EntryKind)>,
    files: Map<Seq<u8>, Seq<u8>>,
    dirs: Set<Seq<u8>>,
)
    requires
        unique_paths(items),
    ensures
        forall|i: int| 0 <= i < items.len() && (#[trigger] items[i]).2 == EntryKind::Blob ==> {
            &&& copy_plan(items, files, dirs).1.contains_key(items[i].0)
            &&& copy_plan(items, files, dirs).1[items[i].0] == items[i].1
        },
        forall|i: int| 0 <= i < items.len() && (#[trigger] items[i]).2 == EntryKind::Tree
            ==> copy_plan(items, files, dirs).2.contains(items[i].0),
    decreases items.len(),
{
    if items.len() > 0 {
        let prev = items.drop_last();
        lemma_unique_prefix(items);
        lemma_plan_records_tree(prev, files, dirs);
        let n = items.len() - 1;
        assert forall|i: int| 0 <= i < n implies #[trigger] items[i] == prev[i] by {}
    }
}

/// A path already recorded with identifier `c`, at which the tree holds only
/// the blob `c`, is not written again and keeps its record.
pub proof fn lemma_unchanged_blob_skipped(
    items: Seq<(Seq<u8>, Seq<u8>, EntryKind)>,
    files: Map<Seq<u8>, Seq<u8>>,
    dirs: Set<Seq<u8>>,
    p: Seq<u8>,
    c: Seq<u8>,
)
    requires
        files.contains_key(p),
        files[p] == c,
        forall|i: int| 0 <= i < items.len() && (#[trigger] items[i]).0 == p
            ==> items[i].1 == c && items[i].2 == EntryKind::Blob,
    ensures
        copy_plan(items, files, dirs).1.contains_key(p),
        copy_plan(items, files, dirs).1[p] == c,
        forall|k: int| 0 <= k < copy_plan(items, files, dirs).0.len()
            ==> !writes_to(#[trigger] copy_plan(items, files, dirs).0[k], p),
    decreases items.len(),
{
    if items.len() > 0 {
        let prev = items.drop_last();
        assert forall|i: int| 0 <= i < prev.len() && (#[trigger] prev[i]).0 == p
            implies prev[i].1 == c && prev[i].2 == EntryKind::Blob by {
            assert(prev[i] == items[i]);
        }
        lemma_unchanged_blob_skipped(prev, files, dirs, p, c);
        assert(items.last() == items[items.len() - 1]);
    }
}

/// A directory already created is not created again, and stays created.
pub proof fn lemma_existing_dir_skipped(
    items: Seq<(Seq<u8>, Seq<u8>, EntryKind)>,
    files: Map<Seq<u8>, Seq<u8>>,
    dirs: Set<Seq<u8>>,
    p: Seq<u8>,
)
    requires
        dirs.contains(p),
    ensures
        copy_plan(items, files, dirs).2.contains(p),
        forall|k: int| 0 <= k < copy_plan(items, files, dirs).0.len()
            ==> !creates(#[trigger] copy_plan(items, files, dirs).0[k], p),
    decreases items.len(),
{
    if items.len() > 0 {
        lemma_existing_dir_skipped(items.drop_last(), files, dirs, p);
    }
}

/// Over a tree whose paths are distinct, a plan writes each path at most once
/// and creates each directory at most once.
pub proof fn lemma_at_most_once(
    items: Seq<(Seq<u8>, Seq<u8>, EntryKind)>,
    files: Map<Seq<u8>, Seq<u8>>,
    dirs: Set<Seq<u8>>,
    p: Seq<u8>,
)
    requires
        unique_paths(items),
    ensures
        forall|k1: int, k2: int|
            0 <= k1 < copy_plan(items, files, dirs).0.len() && 0 <= k2 < copy_plan(items, files, dirs).0.len()
                && writes_to(#[trigger] copy_plan(items, files, dirs).0[k1], p)
                && writes_to(#[trigger] copy_plan(items, files, dirs).0[k2], p) ==> k1 == k2,
        forall|k1: int, k2: int|
            0 <= k1 < copy_plan(items, files, dirs).0.len() && 0 <= k2 < copy_plan(items, files, dirs).0.len()
                && creates(#[trigger] copy_plan(items, files, dirs).0[k1], p)
                && creates(#[trigger] copy_plan(items, files, dirs).0[k2], p) ==> k1 == k2,
    decreases items.len(),
{
    if items.len() > 0 {
        let prev = items.drop_last();
        let n = items.len() - 1;
        lemma_unique_prefix(items);
        lemma_at_most_once(prev, files, dirs, p);
        lemma_actions_from_entries(prev, files, dirs);
        let s = copy_plan(prev, files, dirs);
        let t = copy_plan(items, files, dirs);
        assert(items.last() == items[n]);
        assert forall|k: int| 0 <= k < s.0.len() implies !writes_to(#[trigger] s.0[k], items[n].0)
            && !creates(s.0[k], items[n].0) by {
            match s.0[k] {
                ActionModel::WriteBlob(q, c) => {
                    let i = choose|i: int| 0 <= i < prev.len() && #[trigger] prev[i] == (q, c, EntryKind::Blob);
                    assert(prev[i] == items[i]);
                },
                ActionModel::CreateDir(q) => {
                    let i = choose|i: int| 0 <= i < prev.len() && (#[trigger] prev[i]).0 == q && prev[i].2 == EntryKind::Tree;
                    assert(prev[i] == items[i]);
                },
            }
        }
        assert forall|k: int| 0 <= k < s.0.len() implies #[trigger] t.0[k] == s.0[k] by {}
    }
}

/// Content memoization: a blob that one commit writes at `p` and the next
/// leaves unchanged at `p` is written at most once over the two replays,
/// once the first replay's actions have been carried out and recorded.
pub proof fn lemma_unchanged_blob_written_once(
    first: Seq<(Seq<u8>, Seq<u8>, EntryKind)>,
    second: Seq<(Seq<u8>, Seq<u8>, EntryKind)>,
    files: Map<Seq<u8>, Seq<u8>>,
    dirs: Set<Seq<u8>>,
    p: Seq<u8>,
    c: Seq<u8>,
)
    requires
        unique_paths(first),
        unique_paths(second),
        exists|i: int| 0 <= i < first.len() && #[trigger] first[i] == (p, c, EntryKind::Blob),
        exists|j: int| 0 <= j < second.len() && #[trigger] second[j] == (p, c, EntryKind::Blob),
    ensures
        ({
            let s1 = copy_plan(first, files, dirs);
            let a1 = apply_actions(files, dirs, s1.0);
            let s2 = copy_plan(second, a1.0, a1.1);
            &&& forall|k1: int, k2: int|
                0 <= k1 < s1.0.len() && 0 <= k2 < s1.0.len() && writes_to(#[trigger] s1.0[k1], p)
                    && writes_to(#[trigger] s1.0[k2], p) ==> k1 == k2
            &&& forall|k: int| 0 <= k < s2.0.len() ==> !writes_to(#[trigger] s2.0[k], p)
        }),
{
    let s1 = copy_plan(first, files, dirs);
    lemma_plan_carried_out(first, files, dirs);
    lemma_at_most_once(first, files, dirs, p);
    lemma_plan_records_tree(first, files, dirs);
    let i = choose|i: int| 0 <= i < first.len() && #[trigger] first[i] == (p, c, EntryKind::Blob);
    let j = choose|j: int| 0 <= j < second.len() && #[trigger] second[j] == (p, c, EntryKind::Blob);
    assert forall|k: int| 0 <= k < second.len() && (#[trigger] second[k]).0 == p
        implies second[k].1 == c && second[k].2 == EntryKind::Blob by {
        assert(k == j);
    }
    lemma_unchanged_blob_skipped(second, s1.1, s1.2, p, c);
}

/// A path that no entry of the tree holds keeps its record.
proof fn lemma_untouched_path(
    items: Seq<(Seq<u8>, Seq<u8>, EntryKind)>,
    files: Map<Seq<u8>, Seq<u8>>,
    dirs: Set<Seq<u8>>,
    p: Seq<u8>,
)
    requires
        forall|i: int| 0 <= i < items.len() ==> (#[trigger] items[i]).0 != p,
    ensures
        copy_plan(items, files, dirs).1.contains_key(p) == files.contains_key(p),
        files.contains_key(p) ==> copy_plan(items, files, dirs).1[p] == files[p],
    decreases items.len(),
{
    if items.len() > 0 {
        let prev = items.drop_last();
        assert forall|i: int| 0 <= i < prev.len() implies (#[trigger] prev[i]).0 != p by {
            assert(prev[i] == items[i]);
        }
        lemma_untouched_path(prev, files, dirs, p);
        assert(items.last() == items[items.len() - 1]);
    }
}

/// Over a tree whose paths are distinct, each blob of the tree is either
/// written by the plan with its identifier, or was already recorded at its
/// path with that identifier.
proof fn lemma_blob_written_or_kept(
    items: Seq<(Seq<u8>, Seq<u8>, EntryKind)>,
    files: Map<Seq<u8>, Seq<u8>>,
    dirs: Set<Seq<u8>>,
)
    requires
        unique_paths(items),
    ensures
        forall|i: int| 0 <= i < items.len() && (#[trigger] items[i]).2 == EntryKind::Blob ==> {
            ||| exists|k: int| 0 <= k < copy_plan(items, files, dirs).0.len()
                && #[trigger] copy_plan(items, files, dirs).0[k] == ActionModel::WriteBlob(items[i].0, items[i].1)
            ||| files.contains_key(items[i].0) && files[items[i].0] == items[i].1
        },
    decreases items.len(),
{
    if items.len() > 0 {
        let prev = items.drop_last();
        let n = items.len() - 1;
        lemma_unique_prefix(items);
        lemma_blob_written_or_kept(prev, files, dirs);
        let s = copy_plan(prev, files, dirs);
        let t = copy_plan(items, files, dirs);
        assert(items.last() == items[n]);
        assert forall|k: int| 0 <= k < s.0.len() implies #[trigger] t.0[k] == s.0[k] by {}
        assert forall|i: int| 0 <= i < items.len() && (#[trigger] items[i]).2 == EntryKind::Blob implies {
            ||| exists|k: int| 0 <= k < t.0.len() && #[trigger] t.0[k] == ActionModel::WriteBlob(items[i].0, items[i].1)
            ||| files.contains_key(items[i].0) && files[items[i].0] == items[i].1
        } by {
            if i < n {
                assert(items[i] == prev[i]);
                if exists|k: int| 0 <= k < s.0.len() && #[trigger] s.0[k] == ActionModel::WriteBlob(prev[i].0, prev[i].1) {
                    let k = choose|k: int| 0 <= k < s.0.len() && #[trigger] s.0[k] == ActionModel::WriteBlob(prev[i].0, prev[i].1);
                    assert(t.0[k] == s.0[k]);
                }
            } else {
                assert forall|m: int| 0 <= m < prev.len() implies (#[trigger] prev[m]).0 != items[n].0 by {
                    assert(prev[m] == items[m]);
                }
                lemma_untouched_path(prev, files, dirs, items[n].0);
                if !(s.1.contains_key(items[n].0) && s.1[items[n].0] == items[n].1) {
                    assert(t.0[s.0.len() as int] == ActionModel::WriteBlob(items[n].0, items[n].1));
                }
            }
        }
    }
}

/// Content fidelity: once the plan for a tree whose paths are distinct has
/// been carried out and recorded, the record holds every blob of the tree at
/// its path; each such blob was
/// either written by the plan or already recorded at its path with the same
/// identifier; and every write carries the identifier of the tree's blob at
/// its path.
pub proof fn lemma_copy_fidelity(
    items: Seq<(Seq<u8>, Seq<u8>, EntryKind)>,
    files: Map<Seq<u8>, Seq<u8>>,
    dirs: Set<Seq<u8>>,
)
    requires
        unique_paths(items),
    ensures
        forall|i: int| 0 <= i < items.len() && (#[trigger] items[i]).2 == EntryKind::Blob ==> {
            &&& apply_actions(files, dirs, copy_plan(items, files, dirs).0).0.contains_key(items[i].0)
            &&& apply_actions(files, dirs, copy_plan(items, files, dirs).0).0[items[i].0] == items[i].1
        },
        forall|i: int| 0 <= i < items.len() && (#[trigger] items[i]).2 == EntryKind::Blob ==> {
            ||| exists|k: int| 0 <= k < copy_plan(items, files, dirs).0.len()
                && #[trigger] copy_plan(items, files, dirs).0[k] == ActionModel::WriteBlob(items[i].0, items[i].1)
            ||| files.contains_key(items[i].0) && files[items[i].0] == items[i].1
        },
        forall|k: int| 0 <= k < copy_plan(items, files, dirs).0.len() ==> {
            match #[trigger] copy_plan(items, files, dirs).0[k] {
                ActionModel::WriteBlob(p, c) => exists|i: int|
                    0 <= i < items.len() && #[trigger] items[i] == (p, c, EntryKind::Blob),
                ActionModel::CreateDir(_) => true,
            }
        },
{
    lemma_plan_carried_out(items, files, dirs);
    lemma_plan_records_tree(items, files, dirs);
    lemma_blob_written_or_kept(items, files, dirs);
    lemma_actions_from_entries(items, files, dirs);
}

/// Directory creation is idempotent: a directory that one commit's tree
/// holds is created at most once in that replay and, once that replay's
/// actions have been carried out and recorded, never in the next.
pub proof fn lemma_directory_created_once(
    first: Seq<(Seq<u8>, Seq<u8>, EntryKind)>,
    second: Seq<(Seq<u8>, Seq<u8>, EntryKind)>,
    files: Map<Seq<u8>, Seq<u8>>,
    dirs: Set<Seq<u8>>,
    p: Seq<u8>,
)
    requires
        unique_paths(first),
        exists|i: int| 0 <= i < first.len() && (#[trigger] first[i]).0 == p && first[i].2 == EntryKind::Tree,
    ensures
        ({
            let s1 = copy_plan(first, files, dirs);
            let a1 = apply_actions(files, dirs, s1.0);
            let s2 = copy_plan(second, a1.0, a1.1);
            &&& s1.2.contains(p)
            &&& forall|k1: int, k2: int|
                0 <= k1 < s1.0.len() && 0 <= k2 < s1.0.len() && creates(#[trigger] s1.0[k1], p)
                    && creates(#[trigger] s1.0[k2], p) ==> k1 == k2
            &&& forall|k: int| 0 <= k < s2.0.len() ==> !creates(#[trigger] s2.0[k], p)
        }),
{
    let s1 = copy_plan(first, files, dirs);
    lemma_plan_carried_out(first, files, dirs);
    lemma_at_most_once(first, files, dirs, p);
    lemma_plan_records_tree(first, files, dirs);
    let i = choose|i: int| 0 <= i < first.len() && (#[trigger] first[i]).0 == p && first[i].2 == EntryKind::Tree;
    assert(s1.2.contains(first[i].0));
    lemma_existing_dir_skipped(second, s1.1, s1.2, p);
}

} // verus!
