use git_scribe::git::delta::{
    commit_change, line_range, render_patch, DeltaError, DeltaFile, DeltaStatus, HunkLines,
    PatchLine, VersionRole,
};
use git_scribe::git::repo::{
    base_tree, commit_arguments, current_branch, BaseTree, BaseTreeError, HeadBranch,
};
use git_scribe::git::staged::StagedError;
use git_scribe::git::walk::{EntryKind, WalkStep, WorkingTreeWalk};
use git_scribe::git::{
    CommitChange, CommitChangeKind, CommitMode, CommitStats, DiffHunk, FileMode, LineRange,
    ObjectId, ProspectiveCommit, StagedChange, StagedChangeKind,
};
use git_scribe::order::sort_paths;
use git_scribe::path::RepoPath;
use git_scribe::syntax::context_for_change;

fn path(text: &str) -> RepoPath {
    RepoPath::from_text(text)
}

fn present(name: &str, id: u8, mode: FileMode) -> DeltaFile {
    DeltaFile {
        exists: true,
        path: Some(path(name)),
        oid: ObjectId { bytes: vec![id; 20] },
        mode,
    }
}

fn absent(name: &str) -> DeltaFile {
    DeltaFile {
        exists: false,
        path: Some(path(name)),
        oid: ObjectId { bytes: vec![0; 20] },
        mode: FileMode::Unreadable,
    }
}

fn lines(old_start: u32, old_lines: u32, new_start: u32, new_lines: u32) -> HunkLines {
    HunkLines { old_start, old_lines, new_start, new_lines }
}

#[test]
fn unborn_repository_uses_empty_tree() {
    assert_eq!(base_tree(CommitMode::Normal, None), Ok(BaseTree::Empty));
    let error = base_tree(CommitMode::Amend, None).unwrap_err();
    assert!(error.message("").contains("no existing commit"));
    assert_eq!(
        current_branch(Some(b"refs/heads/main")),
        HeadBranch::Local("main".to_owned())
    );

    let change = commit_change(
        DeltaStatus::Added,
        absent("new.rs"),
        present("new.rs", 7, FileMode::Blob),
        &[lines(0, 0, 1, 1)],
    )
    .unwrap();
    let CommitChangeKind::Added { after } = &change.kind else {
        panic!("expected an addition, got {:?}", change.kind);
    };
    assert_eq!(after.path, path("new.rs"));
    assert_eq!(
        change.hunks,
        [DiffHunk { before: None, after: Some(LineRange { start: 1, count: 1 }) }]
    );
    let commit = ProspectiveCommit {
        mode: CommitMode::Normal,
        changes: vec![change],
        patch: b"diff --git a/new.rs b/new.rs\n@@ -0,0 +1 @@\n+fn main() {}\n".to_vec(),
        stats: CommitStats { files_changed: 1, insertions: 1, deletions: 0 },
    };
    assert_eq!(commit.len(), 1);
    assert!(!commit.is_empty());
    assert_eq!(
        commit.stats().to_text(),
        "1 file changed, 1 insertion(+), 0 deletions(-)"
    );
    let patch = String::from_utf8(commit.patch().to_vec()).unwrap();
    assert!(patch.contains("diff --git a/new.rs b/new.rs"));
    assert!(patch.contains("@@ -0,0 +1 @@"));
}

#[test]
fn normal_modification_has_versions_and_zero_context_hunk() {
    let change = commit_change(
        DeltaStatus::Modified,
        present("file.txt", 1, FileMode::Blob),
        present("file.txt", 2, FileMode::Blob),
        &[lines(2, 1, 2, 2)],
    )
    .unwrap();
    let CommitChangeKind::Modified { before, after } = &change.kind else {
        panic!("expected a modification, got {:?}", change.kind);
    };
    assert_eq!(before.path, after.path);
    assert_ne!(before.oid, after.oid);
    assert_eq!(
        change.hunks,
        [DiffHunk {
            before: Some(LineRange { start: 2, count: 1 }),
            after: Some(LineRange { start: 2, count: 2 }),
        }]
    );
    let line = |origin: char, content: &str| PatchLine {
        origin,
        content: content.as_bytes().to_vec(),
    };
    let patch = render_patch(&[
        line('F', "diff --git a/file.txt b/file.txt\n"),
        line('H', "@@ -2 +2,2 @@\n"),
        line('-', "two\n"),
        line('+', "second\n"),
        line('+', "extra\n"),
        line(' ', "three\n"),
    ]);
    assert_eq!(
        String::from_utf8(patch).unwrap(),
        "diff --git a/file.txt b/file.txt\n@@ -2 +2,2 @@\n-two\n+second\n+extra\n three\n"
    );
}

#[test]
fn deletion_has_only_before_version() {
    let change = commit_change(
        DeltaStatus::Deleted,
        present("deleted.txt", 1, FileMode::Blob),
        absent("deleted.txt"),
        &[lines(1, 2, 0, 0)],
    )
    .unwrap();
    let CommitChangeKind::Deleted { before } = &change.kind else {
        panic!("expected a deletion, got {:?}", change.kind);
    };
    assert_eq!(before.path, path("deleted.txt"));
    assert!(change.after().is_none());
    assert_eq!(
        change.hunks,
        [DiffHunk { before: Some(LineRange { start: 1, count: 2 }), after: None }]
    );
}

#[test]
fn pure_rename_preserves_both_versions() {
    let change = commit_change(
        DeltaStatus::Renamed,
        present("before.txt", 1, FileMode::Blob),
        present("after.txt", 1, FileMode::Blob),
        &[],
    )
    .unwrap();
    let CommitChangeKind::Renamed { before, after } = &change.kind else {
        panic!("expected a rename, got {:?}", change.kind);
    };
    assert_eq!(before.path, path("before.txt"));
    assert_eq!(after.path, path("after.txt"));
    assert_eq!(before.oid, after.oid);
    assert!(change.hunks.is_empty());
    assert_eq!(change.summary_line(), "R\tbefore.txt -> after.txt");
    assert!(context_for_change(&change, None, None, &[]).unwrap().is_none());
}

#[test]
fn rename_with_edit_is_one_change_with_only_edit_hunk() {
    let change = commit_change(
        DeltaStatus::Renamed,
        present("before.rs", 1, FileMode::Blob),
        present("after.rs", 2, FileMode::Blob),
        &[lines(15, 1, 15, 1)],
    )
    .unwrap();
    let CommitChangeKind::Renamed { before: old, after: new } = &change.kind else {
        panic!("expected a rename with edits, got {:?}", change.kind);
    };
    assert_eq!(old.path, path("before.rs"));
    assert_eq!(new.path, path("after.rs"));
    assert_ne!(old.oid, new.oid);
    assert_eq!(
        change.hunks,
        [DiffHunk {
            before: Some(LineRange { start: 15, count: 1 }),
            after: Some(LineRange { start: 15, count: 1 }),
        }]
    );
}

#[test]
fn symbolic_link_change_is_a_type_change() {
    let change = commit_change(
        DeltaStatus::Typechange,
        present("entry", 1, FileMode::Blob),
        present("entry", 2, FileMode::Link),
        &[],
    )
    .unwrap();
    let CommitChangeKind::TypeChanged { before, after } = &change.kind else {
        panic!("expected a type change, got {:?}", change.kind);
    };
    assert_eq!(before.mode, FileMode::Blob);
    assert_eq!(after.mode, FileMode::Link);
    assert!(before.is_blob());
    assert!(!after.is_blob());
    assert_eq!(change.summary_line(), "T\tentry");
}

#[test]
fn root_commit_amend_uses_empty_tree() {
    assert_eq!(base_tree(CommitMode::Amend, Some(0)), Ok(BaseTree::Empty));
}

#[test]
fn ordinary_amend_uses_parent_tree() {
    assert_eq!(base_tree(CommitMode::Amend, Some(1)), Ok(BaseTree::FirstParent));
    assert_eq!(base_tree(CommitMode::Normal, Some(1)), Ok(BaseTree::Head));
}

#[test]
fn merge_commit_amend_is_rejected() {
    let error = base_tree(CommitMode::Amend, Some(2)).unwrap_err();
    assert_eq!(error, BaseTreeError::Merge { parents: 2 });
    assert!(error.message("abc").contains("cannot amend merge commit"));
    assert!(error.message("abc").contains("2 parents"));
    assert_eq!(
        error.message("abc"),
        "cannot amend merge commit abc with 2 parents; merge amendments are not supported"
    );
}

#[test]
fn detached_head_has_no_current_branch() {
    assert_eq!(current_branch(None), HeadBranch::Detached);
    assert_eq!(current_branch(Some(b"refs/remotes/origin/main")), HeadBranch::Detached);
    assert_eq!(current_branch(Some(b"refs")), HeadBranch::Detached);
    assert_eq!(current_branch(Some(b"refs/heads/\xff")), HeadBranch::NotText);
}

#[test]
fn working_tree_context_does_not_follow_directory_symlinks() {
    let mut walk = WorkingTreeWalk::new();
    loop {
        match walk.step() {
            WalkStep::List { directory } => {
                let names: &[&str] = match directory.display().as_str() {
                    "" => &["target", "linked"],
                    "target" => &["file.txt"],
                    other => panic!("listed {other}"),
                };
                let names = names.iter().map(|name| name.as_bytes().to_vec()).collect::<Vec<_>>();
                walk.listed(&names);
            }
            WalkStep::Inspect { path } => walk.inspected(match path.display().as_str() {
                "target" => EntryKind::Directory,
                _ => EntryKind::File,
            }),
            WalkStep::Done => break,
        }
    }
    assert_eq!(walk.finish(), [path("linked"), path("target/file.txt")]);
}

#[test]
fn deltas_without_their_sides_are_refused() {
    let blob = FileMode::Blob;
    let missing =
        commit_change(DeltaStatus::Modified, absent("a"), present("a", 1, blob), &[]).unwrap_err();
    assert_eq!(missing, DeltaError::Missing { role: VersionRole::ModifiedBefore });
    assert_eq!(missing.message(), "libgit2 reported a missing modified file before version");

    let mut unnamed = present("a", 1, blob);
    unnamed.path = None;
    let error = commit_change(DeltaStatus::Added, absent("a"), unnamed.clone(), &[]).unwrap_err();
    assert_eq!(error.message(), "libgit2 omitted the path for added file");

    let error =
        commit_change(DeltaStatus::Deleted, present("a", 0, blob), absent("a"), &[]).unwrap_err();
    assert_eq!(error.message(), "libgit2 omitted the object ID for deleted file at a");

    let error = commit_change(DeltaStatus::Copied, absent("a"), absent("a"), &[]).unwrap_err();
    assert_eq!(
        error.message(),
        "libgit2 returned unsupported prospective commit status: Copied"
    );

    let conflict = commit_change(
        DeltaStatus::Conflicted,
        present("old", 1, blob),
        unnamed.clone(),
        &[lines(1, 1, 1, 1)],
    )
    .unwrap();
    assert_eq!(conflict.kind, CommitChangeKind::Unmerged { path: path("old") });
    assert!(conflict.hunks.is_empty());
    assert_eq!(conflict.summary_line(), "U\told");
    let error =
        commit_change(DeltaStatus::Conflicted, unnamed.clone(), unnamed, &[]).unwrap_err();
    assert_eq!(error, DeltaError::NoConflictPath);
    assert_eq!(error.message(), "libgit2 omitted the path for an unmerged change");
}

#[test]
fn empty_line_ranges_are_none() {
    assert_eq!(line_range(5, 0), None);
    assert_eq!(line_range(5, 2), Some(LineRange { start: 5, count: 2 }));
}

#[test]
fn counts_are_in_the_plural_but_for_one() {
    let stats = CommitStats { files_changed: 2, insertions: 0, deletions: 1 };
    assert_eq!(stats.to_text(), "2 files changed, 0 insertions(+), 1 deletion(-)");
}

#[test]
fn staged_records_are_parsed() {
    let output = b"A\0new.rs\0R087\0old.rs\0moved.rs\0C100\0a\0b\0D\0gone\0T\0link\0U\0both\0M\0edit\0";
    let change = |name: &str, kind: StagedChangeKind| StagedChange { path: path(name), kind };
    assert_eq!(
        StagedChange::parse(output).unwrap(),
        [
            change("new.rs", StagedChangeKind::Added),
            change(
                "moved.rs",
                StagedChangeKind::Renamed { from: path("old.rs"), similarity: 87 }
            ),
            change("b", StagedChangeKind::Copied { from: path("a"), similarity: 100 }),
            change("gone", StagedChangeKind::Deleted),
            change("link", StagedChangeKind::TypeChanged),
            change("both", StagedChangeKind::Unmerged),
            change("edit", StagedChangeKind::Modified),
        ]
    );
    assert_eq!(StagedChange::parse(b"").unwrap(), []);
}

#[test]
fn malformed_staged_records_are_refused() {
    let error = |output: &[u8]| StagedChange::parse(output).unwrap_err();
    assert_eq!(error(b"A\0new.rs"), StagedError::NotTerminated);
    assert_eq!(error(b"\xff\0x\0"), StagedError::StatusNotText);
    assert_eq!(error(b"\0"), StagedError::EmptyStatus);
    assert_eq!(error(b"A\0"), StagedError::MissingPath);
    assert_eq!(error(b"R100\0from\0"), StagedError::MissingPath);
    assert_eq!(error(b"A\0\xff\0"), StagedError::PathNotText);
    assert_eq!(
        error(b"R101\0a\0b\0").message(),
        "Git returned invalid similarity score: \"R101\""
    );
    assert_eq!(
        error(b"A\0ok\0X\t100\0a\0b\0").message(),
        "Git returned unsupported change status: \"X\\t100\""
    );
}

#[test]
fn paths_are_ordered_by_their_names() {
    let sorted = sort_paths(vec![path("a.txt"), path("b"), path("a/z"), path("a"), path("a/b/c")]);
    assert_eq!(sorted, [path("a"), path("a/b/c"), path("a/z"), path("a.txt"), path("b")]);
}

#[test]
fn prospective_commits_give_their_parts() {
    let change = CommitChange {
        kind: CommitChangeKind::Unmerged { path: path("x") },
        hunks: Vec::new(),
    };
    let commit = ProspectiveCommit {
        mode: CommitMode::Amend,
        changes: vec![change.clone()],
        patch: b"patch".to_vec(),
        stats: CommitStats { files_changed: 1, insertions: 0, deletions: 0 },
    };
    assert_eq!(commit.mode(), CommitMode::Amend);
    assert_eq!(commit.changes(), [change]);
    assert_eq!(commit.into_patch(), b"patch");
}

#[test]
fn commit_editors_open_with_the_message() {
    assert_eq!(
        commit_arguments(CommitMode::Normal, "Describe\n\nbody"),
        ["commit", "--edit", "--message", "Describe\n\nbody"]
    );
    assert_eq!(
        commit_arguments(CommitMode::Amend, "Describe"),
        ["commit", "--amend", "--edit", "--message", "Describe"]
    );
}
