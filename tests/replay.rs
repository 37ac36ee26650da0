use git_replay::builder::{commit_request, SourceCommit};
use git_replay::bytes::{bytes_eq, position_of};
use git_replay::cache::{DirRecord, ObjectCache};
use git_replay::copier::{staged_paths, CopyAction, EntryKind, TreeCopier, TreeItem};
use git_replay::driver::{DriverStep, Replication};
use git_replay::error::ReplayError;
use git_replay::traversal::{join, TreeTraversal};
use git_replay::walker::{select_branch, FirstParentWalk};

fn b(s: &str) -> Vec<u8> {
    s.as_bytes().to_vec()
}

fn blob(path: &str, cid: &str) -> TreeItem {
    TreeItem { path: b(path), cid: b(cid), kind: EntryKind::Blob }
}

fn dir(path: &str, cid: &str) -> TreeItem {
    TreeItem { path: b(path), cid: b(cid), kind: EntryKind::Tree }
}

/// Plans the copy of `items` and carries out every action at once.
fn replay(copier: &mut TreeCopier, items: &Vec<TreeItem>) -> Vec<CopyAction> {
    let actions = copier.copy_tree(items).unwrap();
    for a in &actions {
        copier.carried_out(a);
    }
    actions
}

fn writes(actions: &[CopyAction]) -> Vec<(Vec<u8>, Vec<u8>)> {
    actions
        .iter()
        .filter_map(|a| match a {
            CopyAction::WriteBlob { path, cid } => Some((path.clone(), cid.clone())),
            _ => None,
        })
        .collect()
}

fn created(actions: &[CopyAction]) -> Vec<Vec<u8>> {
    actions
        .iter()
        .filter_map(|a| match a {
            CopyAction::CreateDir { path } => Some(path.clone()),
            _ => None,
        })
        .collect()
}

#[test]
fn bytes_compare() {
    assert!(bytes_eq(&b("abc"), &b("abc")));
    assert!(!bytes_eq(&b("abc"), &b("abd")));
    assert!(!bytes_eq(&b("abc"), &b("ab")));
    assert!(bytes_eq(&b(""), &b("")));
    let list = vec![b("x"), b("y"), b("z")];
    assert_eq!(position_of(&list, &b("y")), Some(1));
    assert_eq!(position_of(&list, &b("w")), None);
}

#[test]
fn cache_records_and_overwrites() {
    let mut c = ObjectCache::new();
    assert_eq!(c.lookup(&b("a.txt")), None);
    c.record(b("a.txt"), b("c1"));
    c.record(b("b.txt"), b("c2"));
    assert_eq!(c.lookup(&b("a.txt")), Some(b("c1")));
    c.record(b("a.txt"), b("c3"));
    assert_eq!(c.lookup(&b("a.txt")), Some(b("c3")));
    assert_eq!(c.lookup(&b("b.txt")), Some(b("c2")));
}

#[test]
fn dir_record_is_idempotent() {
    let mut d = DirRecord::new();
    assert!(!d.contains(&b("src")));
    d.insert(b("src"));
    d.insert(b("src"));
    assert!(d.contains(&b("src")));
    assert!(!d.contains(&b("doc")));
}

#[test]
fn three_linear_commits() {
    let commits = vec![
        vec![blob("a.txt", "x")],
        vec![blob("a.txt", "x"), blob("b.txt", "y")],
        vec![blob("a.txt", "z"), blob("b.txt", "y")],
    ];
    let mut walk = FirstParentWalk::new();
    assert!(walk.visit(b("C2"), 1));
    assert!(walk.visit(b("C1"), 1));
    assert!(!walk.visit(b("C0"), 0));
    assert!(walk.skipped_parents().is_empty());
    let order = walk.into_replay_order();
    assert_eq!(order, vec![b("C0"), b("C1"), b("C2")]);

    let mut copier = TreeCopier::new();
    let mut run = Replication::new(order.len());
    run.start();
    let mut plans = Vec::new();
    let mut parents_seen = Vec::new();
    loop {
        match run.next_step() {
            DriverStep::Replay { index, parents } => {
                let plan = replay(&mut copier, &commits[index]);
                plans.push(writes(&plan));
                parents_seen.push(parents);
                let target = format!("T{}", index).into_bytes();
                run.replicated(target);
            }
            DriverStep::Finished => break,
            DriverStep::Halted => panic!("halted"),
        }
    }
    assert!(run.is_done());
    assert_eq!(run.target_commits(), vec![b("T0"), b("T1"), b("T2")]);
    assert_eq!(parents_seen[0], Vec::<Vec<u8>>::new());
    assert_eq!(parents_seen[1], vec![b("T0")]);
    assert_eq!(parents_seen[2], vec![b("T1")]);
    assert_eq!(plans[0], vec![(b("a.txt"), b("x"))]);
    // the write to a.txt during the second replay is skipped
    assert_eq!(plans[1], vec![(b("b.txt"), b("y"))]);
    assert_eq!(plans[2], vec![(b("a.txt"), b("z"))]);
    assert_eq!(copier.recorded(&b("a.txt")), Some(b("z")));
    assert_eq!(copier.recorded(&b("b.txt")), Some(b("y")));
}

#[test]
fn unchanged_blob_is_written_once() {
    let mut copier = TreeCopier::new();
    let tree = vec![dir("src", "t1"), blob("src/lib.rs", "c")];
    let first = replay(&mut copier, &tree);
    let second = replay(&mut copier, &tree);
    assert_eq!(writes(&first), vec![(b("src/lib.rs"), b("c"))]);
    assert!(second.is_empty());
}

#[test]
fn directory_created_once_over_two_commits() {
    let mut copier = TreeCopier::new();
    let first = replay(&mut copier, &vec![dir("docs", "t1"), blob("docs/a.md", "a")]);
    let second = replay(&mut copier, &vec![dir("docs", "t2"), blob("docs/a.md", "a"), blob("docs/b.md", "b")]);
    assert_eq!(created(&first), vec![b("docs")]);
    assert!(created(&second).is_empty());
    assert_eq!(writes(&second), vec![(b("docs/b.md"), b("b"))]);
}

#[test]
fn fidelity_every_blob_recorded() {
    let mut copier = TreeCopier::new();
    let tree = vec![
        blob("top.txt", "t"),
        dir("d", "dt"),
        blob("d/inner.txt", "i"),
        dir("d/e", "et"),
        blob("d/e/deep.txt", "p"),
    ];
    let plan = replay(&mut copier, &tree);
    assert_eq!(
        writes(&plan),
        vec![
            (b("top.txt"), b("t")),
            (b("d/inner.txt"), b("i")),
            (b("d/e/deep.txt"), b("p"))
        ]
    );
    assert_eq!(created(&plan), vec![b("d"), b("d/e")]);
    assert_eq!(copier.recorded(&b("d/e/deep.txt")), Some(b("p")));
    assert_eq!(
        staged_paths(&plan),
        vec![b("top.txt"), b("d/inner.txt"), b("d/e/deep.txt")]
    );
}

#[test]
fn unsupported_entry_fails_and_changes_nothing() {
    let copier = TreeCopier::new();
    let tree = vec![
        blob("a.txt", "x"),
        TreeItem { path: b("link"), cid: b("l"), kind: EntryKind::Other },
        TreeItem { path: b("sub"), cid: b("s"), kind: EntryKind::Other },
    ];
    match copier.copy_tree(&tree) {
        Err(ReplayError::UnsupportedObjectKind { path }) => assert_eq!(path, b("link")),
        other => panic!("unexpected {:?}", other),
    }
    assert_eq!(copier.recorded(&b("a.txt")), None);
}

#[test]
fn branch_prefers_master_then_main() {
    let candidates = vec![b("refs/heads/master"), b("refs/heads/main")];
    let names = vec![b("refs/heads/main"), b("refs/heads/master"), b("refs/tags/v1")];
    assert_eq!(select_branch(&names, &candidates).unwrap(), 1);
    let names = vec![b("refs/heads/feature"), b("refs/heads/main")];
    assert_eq!(select_branch(&names, &candidates).unwrap(), 1);
    let names = vec![b("refs/heads/main"), b("refs/heads/master-old")];
    assert_eq!(select_branch(&names, &candidates).unwrap(), 0);
    let names = vec![b("refs/heads/main-old"), b("refs/heads/dev")];
    assert!(matches!(select_branch(&names, &candidates), Err(ReplayError::BranchNotFound)));
    assert!(matches!(select_branch(&vec![], &candidates), Err(ReplayError::BranchNotFound)));
}

#[test]
fn merge_parents_are_noted() {
    let mut walk = FirstParentWalk::new();
    assert!(walk.visit(b("H"), 2));
    assert!(walk.visit(b("M"), 1));
    assert!(walk.visit(b("N"), 3));
    assert!(!walk.visit(b("R"), 0));
    assert_eq!(walk.len(), 4);
    assert_eq!(walk.skipped_parents(), vec![(0, 1), (2, 1), (2, 2)]);
    assert_eq!(walk.into_replay_order(), vec![b("R"), b("N"), b("M"), b("H")]);
}

#[test]
fn failure_halts_and_keeps_chain() {
    let mut run = Replication::new(3);
    run.start();
    run.replicated(b("T0"));
    assert_eq!(run.last_replicated(), Some(0));
    run.failed(ReplayError::ContentWriteFailure);
    assert!(matches!(run.next_step(), DriverStep::Halted));
    assert!(!run.is_done());
    assert_eq!(run.target_commits(), vec![b("T0")]);
    assert_eq!(run.last_replicated(), Some(0));
}

#[test]
fn empty_history_is_done_at_once() {
    let mut run = Replication::new(0);
    run.start();
    assert!(run.is_done());
    assert!(matches!(run.next_step(), DriverStep::Finished));
    assert_eq!(run.last_replicated(), None);
}

#[test]
fn author_and_message_carried_over() {
    let source = SourceCommit {
        cid: b("C1"),
        author_name: b("Ada"),
        author_email: b("ada@example.org"),
        message: vec![b'A', b'd', b'd', 0xff, b'\n'],
    };
    let r = commit_request(&source, vec![b("T0")]);
    assert_eq!(r.author_name, b("Ada"));
    assert_eq!(r.author_email, b("ada@example.org"));
    assert_eq!(r.message, vec![b'A', b'd', b'd', 0xff, b'\n']);
    assert_eq!(r.parents, vec![b("T0")]);
}

#[test]
fn join_builds_paths() {
    assert_eq!(join(&b(""), &b("a.txt")), b("a.txt"));
    assert_eq!(join(&b("src"), &b("lib.rs")), b("src/lib.rs"));
    assert_eq!(join(&b("a/b"), &b("c")), b("a/b/c"));
}

#[test]
fn traversal_flattens_nested_trees() {
    let mut walk = TreeTraversal::new(b("root"));
    assert_eq!(walk.next_tree(), Some((b(""), b("root"))));
    walk.listed(&vec![blob("README", "r"), dir("src", "ts"), dir("docs", "td")]);
    assert_eq!(walk.next_tree(), Some((b("src"), b("ts"))));
    walk.listed(&vec![blob("main.rs", "m"), dir("util", "tu")]);
    assert_eq!(walk.next_tree(), Some((b("docs"), b("td"))));
    walk.listed(&vec![blob("guide.md", "g")]);
    assert_eq!(walk.next_tree(), Some((b("src/util"), b("tu"))));
    walk.listed(&vec![blob("mod.rs", "u")]);
    assert_eq!(walk.next_tree(), None);
    let items = walk.into_items();
    let paths: Vec<Vec<u8>> = items.iter().map(|i| i.path.clone()).collect();
    assert_eq!(
        paths,
        vec![
            b("README"),
            b("src"),
            b("docs"),
            b("src/main.rs"),
            b("src/util"),
            b("docs/guide.md"),
            b("src/util/mod.rs")
        ]
    );
    assert_eq!(items[4].cid, b("tu"));
    assert_eq!(items[4].kind, EntryKind::Tree);

    let mut copier = TreeCopier::new();
    let plan = replay(&mut copier, &items);
    assert_eq!(created(&plan), vec![b("src"), b("docs"), b("src/util")]);
    assert_eq!(writes(&plan).len(), 4);
}

#[test]
fn plan_leaves_records_until_carried_out() {
    let mut copier = TreeCopier::new();
    let tree = vec![dir("d", "t"), blob("d/a.txt", "x")];
    let plan = copier.copy_tree(&tree).unwrap();
    assert_eq!(plan.len(), 2);
    // nothing performed yet: the same plan comes again
    assert_eq!(copier.recorded(&b("d/a.txt")), None);
    assert_eq!(copier.copy_tree(&tree).unwrap().len(), 2);
    // only the directory was created; the write failed
    copier.carried_out(&plan[0]);
    let again = copier.copy_tree(&tree).unwrap();
    assert_eq!(created(&again), Vec::<Vec<u8>>::new());
    assert_eq!(writes(&again), vec![(b("d/a.txt"), b("x"))]);
    copier.carried_out(&again[0]);
    assert_eq!(copier.recorded(&b("d/a.txt")), Some(b("x")));
    assert!(copier.copy_tree(&tree).unwrap().is_empty());
}

#[test]
fn repeated_path_in_one_tree_is_planned_once() {
    let copier = TreeCopier::new();
    let tree = vec![dir("d", "t"), dir("d", "t"), blob("a", "x"), blob("a", "x")];
    let plan = copier.copy_tree(&tree).unwrap();
    assert_eq!(created(&plan), vec![b("d")]);
    assert_eq!(writes(&plan), vec![(b("a"), b("x"))]);
}
