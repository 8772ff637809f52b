//! File changes of a prospective commit.

use vstd::prelude::*;
use vstd::string::StringExecFns;

use crate::git::hunk::DiffHunk;
use crate::git::repo::CommitMode;
use crate::git::staged;
use crate::path;
use crate::path::RepoPath;
use crate::text;

verus! {

/// The raw ID of a Git object.
#[derive(Debug, Clone, PartialEq, Eq)]
pub struct ObjectId {
    /// Bytes of the ID.
    pub bytes: Vec<u8>,
}

impl View for ObjectId {
    type V = Seq<u8>;

    open spec fn view(&self) -> Seq<u8> {
        self.bytes@
    }
}

/// A Git file mode.
#[derive(Debug, Clone, Copy, PartialEq, Eq, Structural)]
pub enum FileMode {
    /// Unreadable.
    Unreadable,
    /// A directory.
    Tree,
    /// A regular file.
    Blob,
    /// A group-writable regular file, as some old commits hold it.
    BlobGroupWritable,
    /// An executable file.
    BlobExecutable,
    /// A symbolic link.
    Link,
    /// A submodule.
    Commit,
}

/// One side of a file change in a prospective commit.
#[derive(Debug, Clone, PartialEq, Eq)]
pub struct FileVersion {
    /// Path relative to the repository root.
    pub path: RepoPath,
    /// ID of the Git object stored at this path.
    pub oid: ObjectId,
    /// Git file mode for the object.
    pub mode: FileMode,
}

/// Whether a mode is that of ordinary file contents.
pub open spec fn is_blob_mode(mode: FileMode) -> bool {
    mode == FileMode::Blob || mode == FileMode::BlobExecutable || mode
        == FileMode::BlobGroupWritable
}

impl FileVersion {
    /// Whether this version contains ordinary source-file contents suitable for syntax analysis.
    #[must_use]
    pub fn is_blob(&self) -> (result: bool)
        ensures
            result == is_blob_mode(self.mode),
    {
        matches!(
            self.mode,
            FileMode::Blob | FileMode::BlobExecutable | FileMode::BlobGroupWritable
        )
    }
}

/// The path and object versions involved in a prospective commit change.
#[derive(Debug, Clone, PartialEq, Eq)]
pub enum CommitChangeKind {
    /// A newly added file.
    Added {
        /// The file in the prospective commit.
        after: FileVersion,
    },
    /// A modified file.
    Modified {
        /// The file before the change.
        before: FileVersion,
        /// The file after the change.
        after: FileVersion,
    },
    /// A deleted file.
    Deleted {
        /// The file before deletion.
        before: FileVersion,
    },
    /// A renamed file, with or without edits.
    Renamed {
        /// The original file.
        before: FileVersion,
        /// The renamed file.
        after: FileVersion,
    },
    /// A file whose Git type changed.
    TypeChanged {
        /// The file before the type change.
        before: FileVersion,
        /// The file after the type change.
        after: FileVersion,
    },
    /// An unresolved merge conflict.
    Unmerged {
        /// The conflicted path.
        path: RepoPath,
    },
}

/// An owned, internally consistent file change in a prospective commit.
#[derive(Debug, Clone, PartialEq, Eq)]
pub struct CommitChange {
    /// Kind and file versions for the change.
    pub kind: CommitChangeKind,
    /// Changed line ranges in the file.
    pub hunks: Vec<DiffHunk>,
}

/// The version before a change.
pub open spec fn version_before(kind: CommitChangeKind) -> Option<FileVersion> {
    match kind {
        CommitChangeKind::Modified { before, .. } => Some(before),
        CommitChangeKind::Deleted { before } => Some(before),
        CommitChangeKind::Renamed { before, .. } => Some(before),
        CommitChangeKind::TypeChanged { before, .. } => Some(before),
        CommitChangeKind::Added { .. } => None,
        CommitChangeKind::Unmerged { .. } => None,
    }
}

/// The version after a change.
pub open spec fn version_after(kind: CommitChangeKind) -> Option<FileVersion> {
    match kind {
        CommitChangeKind::Added { after } => Some(after),
        CommitChangeKind::Modified { after, .. } => Some(after),
        CommitChangeKind::Renamed { after, .. } => Some(after),
        CommitChangeKind::TypeChanged { after, .. } => Some(after),
        CommitChangeKind::Deleted { .. } => None,
        CommitChangeKind::Unmerged { .. } => None,
    }
}

/// A path as it is shown.
pub open spec fn shown(path: RepoPath) -> Seq<char> {
    text::lossy_utf8(path@)
}

/// A status letter with the path, or the paths, of a change.
pub open spec fn status_line(kind: CommitChangeKind) -> Seq<char> {
    match kind {
        CommitChangeKind::Added { after } => "A\t"@ + shown(after.path),
        CommitChangeKind::Modified { after, .. } => "M\t"@ + shown(after.path),
        CommitChangeKind::Deleted { before } => "D\t"@ + shown(before.path),
        CommitChangeKind::Renamed { before, after } => "R\t"@ + shown(before.path) + " -> "@
            + shown(after.path),
        CommitChangeKind::TypeChanged { before, after } => if path::same(
            before.path@,
            after.path@,
        ) {
            "T\t"@ + shown(after.path)
        } else {
            "T\t"@ + shown(before.path) + " -> "@ + shown(after.path)
        },
        CommitChangeKind::Unmerged { path } => "U\t"@ + shown(path),
    }
}

/// A label and a path.
fn labelled(label: &str, path: &RepoPath) -> (line: String)
    ensures
        line@ == label@ + shown(*path),
{
    let mut line = label.to_owned();
    line.append(&path.display());
    line
}

/// A label and the two paths of a move.
fn labelled_move(label: &str, from: &RepoPath, to: &RepoPath) -> (line: String)
    ensures
        line@ == label@ + shown(*from) + " -> "@ + shown(*to),
{
    let mut line = labelled(label, from);
    line.append(" -> ");
    line.append(&to.display());
    line
}

impl CommitChange {
    /// The version before the prospective commit, when one exists.
    #[must_use]
    pub fn before(&self) -> (result: Option<&FileVersion>)
        ensures
            match result {
                Some(version) => version_before(self.kind) == Some(*version),
                None => version_before(self.kind) is None,
            },
    {
        match &self.kind {
            CommitChangeKind::Modified { before, .. } => Some(before),
            CommitChangeKind::Deleted { before } => Some(before),
            CommitChangeKind::Renamed { before, .. } => Some(before),
            CommitChangeKind::TypeChanged { before, .. } => Some(before),
            CommitChangeKind::Added { .. } => None,
            CommitChangeKind::Unmerged { .. } => None,
        }
    }

    /// The version after the prospective commit, when one exists.
    #[must_use]
    pub fn after(&self) -> (result: Option<&FileVersion>)
        ensures
            match result {
                Some(version) => version_after(self.kind) == Some(*version),
                None => version_after(self.kind) is None,
            },
    {
        match &self.kind {
            CommitChangeKind::Added { after } => Some(after),
            CommitChangeKind::Modified { after, .. } => Some(after),
            CommitChangeKind::Renamed { after, .. } => Some(after),
            CommitChangeKind::TypeChanged { after, .. } => Some(after),
            CommitChangeKind::Deleted { .. } => None,
            CommitChangeKind::Unmerged { .. } => None,
        }
    }

    /// A concise status-style description of the change.
    #[must_use]
    pub fn summary_line(&self) -> (line: String)
        ensures
            line@ == status_line(self.kind),
    {
        match &self.kind {
            CommitChangeKind::Added { after } => labelled("A\t", &after.path),
            CommitChangeKind::Modified { after, .. } => labelled("M\t", &after.path),
            CommitChangeKind::Deleted { before } => labelled("D\t", &before.path),
            CommitChangeKind::Renamed { before, after } => {
                labelled_move("R\t", &before.path, &after.path)
            },
            CommitChangeKind::TypeChanged { before, after } => {
                if before.path.same_as(&after.path) {
                    labelled("T\t", &after.path)
                } else {
                    labelled_move("T\t", &before.path, &after.path)
                }
            },
            CommitChangeKind::Unmerged { path } => labelled("U\t", path),
        }
    }
}

/// Aggregate line and file counts for a prospective commit.
#[derive(Debug, Clone, Copy, PartialEq, Eq, Structural)]
pub struct CommitStats {
    /// Number of changed files.
    pub files_changed: usize,
    /// Number of inserted lines.
    pub insertions: usize,
    /// Number of deleted lines.
    pub deletions: usize,
}

/// A word, with `s` appended for any count but one.
pub open spec fn plural(count: int, word: Seq<char>) -> Seq<char> {
    if count == 1 {
        word
    } else {
        word + "s"@
    }
}

/// A count, a space and the word for what is counted.
pub open spec fn counted_word(count: usize, word: Seq<char>) -> Seq<char> {
    text::decimal(count as nat) + " "@ + plural(count as int, word)
}

/// The counts in words.
pub open spec fn stats_text(stats: CommitStats) -> Seq<char> {
    counted_word(stats.files_changed, "file"@) + " changed, "@ + counted_word(
        stats.insertions,
        "insertion"@,
    ) + "(+), "@ + counted_word(stats.deletions, "deletion"@) + "(-)"@
}

/// Append a count and the word for what is counted.
fn append_counted(output: &mut String, count: usize, word: &str)
    ensures
        final(output)@ == old(output)@ + counted_word(count, word@),
{
    let ghost start = output@;
    text::append_decimal(output, count as u64);
    output.append(" ");
    output.append(word);
    if count != 1 {
        output.append("s");
    }
    assert(output@ =~= start + counted_word(count, word@));
}

impl CommitStats {
    /// The counts in words.
    pub fn to_text(&self) -> (line: String)
        ensures
            line@ == stats_text(*self),
    {
        let mut line = String::new();
        append_counted(&mut line, self.files_changed, "file");
        line.append(" changed, ");
        append_counted(&mut line, self.insertions, "insertion");
        line.append("(+), ");
        append_counted(&mut line, self.deletions, "deletion");
        line.append("(-)");
        assert(line@ =~= stats_text(*self));
        line
    }
}

/// All application-facing views of the commit currently represented by the index.
#[derive(Debug, PartialEq, Eq)]
pub struct ProspectiveCommit {
    /// Mode used to construct the commit view.
    pub mode: CommitMode,
    /// Structured file changes.
    pub changes: Vec<CommitChange>,
    /// Rendered zero-context patch.
    pub patch: Vec<u8>,
    /// Aggregate change statistics.
    pub stats: CommitStats,
}

impl ProspectiveCommit {
    /// Return the mode used to construct this commit view.
    #[must_use]
    pub fn mode(&self) -> (mode: CommitMode)
        ensures
            mode == self.mode,
    {
        self.mode
    }

    /// Return the structured file changes.
    #[must_use]
    pub fn changes(&self) -> (changes: &[CommitChange])
        ensures
            changes@ == self.changes@,
    {
        self.changes.as_slice()
    }

    /// Return the rendered patch.
    #[must_use]
    pub fn patch(&self) -> (patch: &[u8])
        ensures
            patch@ == self.patch@,
    {
        self.patch.as_slice()
    }

    /// Return aggregate change statistics.
    #[must_use]
    pub fn stats(&self) -> (stats: CommitStats)
        ensures
            stats == self.stats,
    {
        self.stats
    }

    /// Whether the prospective commit contains no changes.
    #[must_use]
    pub fn is_empty(&self) -> (result: bool)
        ensures
            result == (self.changes@.len() == 0),
    {
        self.changes.len() == 0
    }

    /// Return the number of changed files.
    #[must_use]
    pub fn len(&self) -> (len: usize)
        ensures
            len == self.changes@.len(),
    {
        self.changes.len()
    }

    /// Consume the commit view and return its rendered patch.
    pub fn into_patch(self) -> (patch: Vec<u8>)
        ensures
            patch == self.patch,
    {
        self.patch
    }
}

/// A status line starts with Git's name-status letter of the change and a tab: the letter says
/// which versions exist, and it is the one that the staged changes are read by.
pub proof fn lemma_status_letters_name_the_change(kind: CommitChangeKind)
    ensures
        status_line(kind).len() >= 2,
        status_line(kind)[1] == '\t',
        status_line(kind)[0] == 'A' <==> version_before(kind) is None && version_after(
            kind,
        ) is Some,
        status_line(kind)[0] == 'D' <==> version_before(kind) is Some && version_after(
            kind,
        ) is None,
        status_line(kind)[0] == 'U' <==> version_before(kind) is None && version_after(
            kind,
        ) is None,
        status_line(kind)[0] == 'A' <==> kind is Added,
        status_line(kind)[0] == 'M' <==> kind is Modified,
        status_line(kind)[0] == 'D' <==> kind is Deleted,
        status_line(kind)[0] == 'R' <==> kind is Renamed,
        status_line(kind)[0] == 'T' <==> kind is TypeChanged,
        status_line(kind)[0] == 'U' <==> kind is Unmerged,
        staged::simple_kind(status_line(kind)[0]) == match kind {
            CommitChangeKind::Added { .. } => Some(staged::StagedKindView::Added),
            CommitChangeKind::Modified { .. } => Some(staged::StagedKindView::Modified),
            CommitChangeKind::Deleted { .. } => Some(staged::StagedKindView::Deleted),
            CommitChangeKind::Renamed { .. } => None,
            CommitChangeKind::TypeChanged { .. } => Some(staged::StagedKindView::TypeChanged),
            CommitChangeKind::Unmerged { .. } => Some(staged::StagedKindView::Unmerged),
        },
{
    reveal_strlit("A\t");
    reveal_strlit("M\t");
    reveal_strlit("D\t");
    reveal_strlit("R\t");
    reveal_strlit("T\t");
    reveal_strlit("U\t");
}

/// What follows the letter and the tab is the path of the change, as it is after the commit where
/// it is there at all, and as it was where it is not; a change between two different paths shows
/// both, the old one first.
pub proof fn lemma_status_lines_show_the_paths(kind: CommitChangeKind)
    ensures
        version_before(kind) is None && version_after(kind) is Some ==> status_line(kind).skip(2)
            == shown(version_after(kind)->0.path),
        version_before(kind) is Some && version_after(kind) is None ==> status_line(kind).skip(2)
            == shown(version_before(kind)->0.path),
        kind is Modified ==> status_line(kind).skip(2) == shown(version_after(kind)->0.path),
        kind matches CommitChangeKind::Unmerged { path } ==> status_line(kind).skip(2) == shown(
            path,
        ),
        kind is Renamed || (kind is TypeChanged && !path::same(
            version_before(kind)->0.path@,
            version_after(kind)->0.path@,
        )) ==> status_line(kind).skip(2) == shown(version_before(kind)->0.path) + " -> "@ + shown(
            version_after(kind)->0.path,
        ),
        kind is TypeChanged && path::same(
            version_before(kind)->0.path@,
            version_after(kind)->0.path@,
        ) ==> status_line(kind).skip(2) == shown(version_after(kind)->0.path),
{
    reveal_strlit("A\t");
    reveal_strlit("M\t");
    reveal_strlit("D\t");
    reveal_strlit("R\t");
    reveal_strlit("T\t");
    reveal_strlit("U\t");
    match kind {
        CommitChangeKind::Added { after } => {
            assert(status_line(kind).skip(2) =~= shown(after.path));
        },
        CommitChangeKind::Modified { after, .. } => {
            assert(status_line(kind).skip(2) =~= shown(after.path));
        },
        CommitChangeKind::Deleted { before } => {
            assert(status_line(kind).skip(2) =~= shown(before.path));
        },
        CommitChangeKind::Renamed { before, after } => {
            assert(status_line(kind).skip(2) =~= shown(before.path) + " -> "@ + shown(after.path));
        },
        CommitChangeKind::TypeChanged { before, after } => {
            if path::same(before.path@, after.path@) {
                assert(status_line(kind).skip(2) =~= shown(after.path));
            } else {
                assert(status_line(kind).skip(2) =~= shown(before.path) + " -> "@ + shown(
                    after.path,
                ));
            }
        },
        CommitChangeKind::Unmerged { path } => {
            assert(status_line(kind).skip(2) =~= shown(path));
        },
    }
}

/// The counts read as Git's summary does: one file, insertion or deletion is in the singular, any
/// other number in the plural.
pub proof fn lemma_counts_agree_with_their_words(stats: CommitStats)
    ensures
        stats_text(stats) == text::decimal(stats.files_changed as nat) + (if stats.files_changed
            == 1 {
            " file changed, "@
        } else {
            " files changed, "@
        }) + text::decimal(stats.insertions as nat) + (if stats.insertions == 1 {
            " insertion(+), "@
        } else {
            " insertions(+), "@
        }) + text::decimal(stats.deletions as nat) + (if stats.deletions == 1 {
            " deletion(-)"@
        } else {
            " deletions(-)"@
        }),
{
    lemma_counted_word(stats.files_changed, "file"@, " changed, "@);
    reveal_strlit("s");
    reveal_strlit(" ");
    reveal_strlit("file");
    reveal_strlit(" changed, ");
    reveal_strlit(" file changed, ");
    reveal_strlit(" files changed, ");
    reveal_strlit("insertion");
    reveal_strlit("(+), ");
    reveal_strlit(" insertion(+), ");
    reveal_strlit(" insertions(+), ");
    reveal_strlit("deletion");
    reveal_strlit("(-)");
    reveal_strlit(" deletion(-)");
    reveal_strlit(" deletions(-)");
    assert(" "@ + "file"@ + " changed, "@ =~= " file changed, "@);
    assert(" "@ + ("file"@ + "s"@) + " changed, "@ =~= " files changed, "@);
    assert(" "@ + "insertion"@ + "(+), "@ =~= " insertion(+), "@);
    assert(" "@ + ("insertion"@ + "s"@) + "(+), "@ =~= " insertions(+), "@);
    assert(" "@ + "deletion"@ + "(-)"@ =~= " deletion(-)"@);
    assert(" "@ + ("deletion"@ + "s"@) + "(-)"@ =~= " deletions(-)"@);
    lemma_counted_word(stats.insertions, "insertion"@, "(+), "@);
    lemma_counted_word(stats.deletions, "deletion"@, "(-)"@);
    lemma_three_texts(
        counted_word(stats.files_changed, "file"@),
        " changed, "@,
        counted_word(stats.insertions, "insertion"@),
        "(+), "@,
        counted_word(stats.deletions, "deletion"@),
        "(-)"@,
    );
    lemma_three_texts(
        text::decimal(stats.files_changed as nat),
        " "@ + plural(stats.files_changed as int, "file"@) + " changed, "@,
        text::decimal(stats.insertions as nat),
        " "@ + plural(stats.insertions as int, "insertion"@) + "(+), "@,
        text::decimal(stats.deletions as nat),
        " "@ + plural(stats.deletions as int, "deletion"@) + "(-)"@,
    );
}

proof fn lemma_counted_word(count: usize, word: Seq<char>, more: Seq<char>)
    ensures
        counted_word(count, word) + more == text::decimal(count as nat) + (" "@ + plural(
            count as int,
            word,
        ) + more),
{
    assert(counted_word(count, word) + more =~= text::decimal(count as nat) + (" "@ + plural(
        count as int,
        word,
    ) + more));
}

proof fn lemma_three_texts(
    a: Seq<char>,
    b: Seq<char>,
    c: Seq<char>,
    d: Seq<char>,
    e: Seq<char>,
    f: Seq<char>,
)
    ensures
        a + b + c + d + e + f == (a + b) + (c + d) + (e + f),
{
    assert(a + b + c + d + e + f =~= (a + b) + (c + d) + (e + f));
}

} // verus!
