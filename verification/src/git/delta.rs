//! Conversion of raw diff deltas into commit changes.

use vstd::prelude::*;
use vstd::string::StringExecFns;

use crate::bytes;
use crate::git::change;
use crate::git::change::{CommitChange, CommitChangeKind, FileMode, FileVersion, ObjectId};
use crate::git::hunk;
use crate::git::hunk::{DiffHunk, LineRange};
use crate::path::RepoPath;

verus! {

/// How a diff classifies a file.
#[derive(Debug, Clone, Copy, PartialEq, Eq, Structural)]
pub enum DeltaStatus {
    /// No changes.
    Unmodified,
    /// The file is not in the old version.
    Added,
    /// The file is not in the new version.
    Deleted,
    /// The contents changed between the versions.
    Modified,
    /// The file was renamed between the versions.
    Renamed,
    /// The file was copied from another old file.
    Copied,
    /// An ignored item in the working tree.
    Ignored,
    /// An untracked item in the working tree.
    Untracked,
    /// The type of the entry changed between the versions.
    Typechange,
    /// The entry cannot be read.
    Unreadable,
    /// The entry in the index is conflicted.
    Conflicted,
}

/// One side of a raw diff delta.
#[derive(Debug, Clone, PartialEq, Eq)]
pub struct DeltaFile {
    /// Whether the file exists on this side.
    pub exists: bool,
    /// Path relative to the repository root, if reported.
    pub path: Option<RepoPath>,
    /// ID of the object.
    pub oid: ObjectId,
    /// File mode.
    pub mode: FileMode,
}

/// The line counts of one raw diff hunk.
#[derive(Debug, Clone, Copy, PartialEq, Eq, Structural)]
pub struct HunkLines {
    /// First line in the old version.
    pub old_start: u32,
    /// Number of lines in the old version.
    pub old_lines: u32,
    /// First line in the new version.
    pub new_start: u32,
    /// Number of lines in the new version.
    pub new_lines: u32,
}

/// What a side of a change is to the change.
#[derive(Debug, Clone, Copy, PartialEq, Eq, Structural)]
pub enum VersionRole {
    /// The added file.
    Added,
    /// The modified file before the change.
    ModifiedBefore,
    /// The modified file after the change.
    ModifiedAfter,
    /// The deleted file.
    Deleted,
    /// The renamed file before the change.
    RenamedBefore,
    /// The renamed file after the change.
    RenamedAfter,
    /// The file whose type changed, before the change.
    TypeChangedBefore,
    /// The file whose type changed, after the change.
    TypeChangedAfter,
}

/// Why a raw delta is no commit change.
#[derive(Debug, Clone, PartialEq, Eq)]
pub enum DeltaError {
    /// A side that the change needs does not exist.
    Missing {
        /// The side.
        role: VersionRole,
    },
    /// A side has no path.
    NoPath {
        /// The side.
        role: VersionRole,
    },
    /// A side has no object ID.
    NoId {
        /// The side.
        role: VersionRole,
        /// Path of the side.
        path: RepoPath,
    },
    /// A conflict has no path.
    NoConflictPath,
    /// The status is not one of a prospective commit.
    Unsupported {
        /// The status.
        status: DeltaStatus,
    },
}

/// A side of a change in words.
pub open spec fn role_text(role: VersionRole) -> Seq<char> {
    match role {
        VersionRole::Added => "added file"@,
        VersionRole::ModifiedBefore => "modified file before version"@,
        VersionRole::ModifiedAfter => "modified file after version"@,
        VersionRole::Deleted => "deleted file"@,
        VersionRole::RenamedBefore => "renamed file before version"@,
        VersionRole::RenamedAfter => "renamed file after version"@,
        VersionRole::TypeChangedBefore => "type-changed file before version"@,
        VersionRole::TypeChangedAfter => "type-changed file after version"@,
    }
}

/// The name of a status.
pub open spec fn status_text(status: DeltaStatus) -> Seq<char> {
    match status {
        DeltaStatus::Unmodified => "Unmodified"@,
        DeltaStatus::Added => "Added"@,
        DeltaStatus::Deleted => "Deleted"@,
        DeltaStatus::Modified => "Modified"@,
        DeltaStatus::Renamed => "Renamed"@,
        DeltaStatus::Copied => "Copied"@,
        DeltaStatus::Ignored => "Ignored"@,
        DeltaStatus::Untracked => "Untracked"@,
        DeltaStatus::Typechange => "Typechange"@,
        DeltaStatus::Unreadable => "Unreadable"@,
        DeltaStatus::Conflicted => "Conflicted"@,
    }
}

/// What an error is reported as.
pub open spec fn error_text(error: DeltaError) -> Seq<char> {
    match error {
        DeltaError::Missing { role } => "libgit2 reported a missing "@ + role_text(role),
        DeltaError::NoPath { role } => "libgit2 omitted the path for "@ + role_text(role),
        DeltaError::NoId { role, path } => "libgit2 omitted the object ID for "@ + role_text(role)
            + " at "@ + change::shown(path),
        DeltaError::NoConflictPath => "libgit2 omitted the path for an unmerged change"@,
        DeltaError::Unsupported {
            status,
        } => "libgit2 returned unsupported prospective commit status: "@ + status_text(status),
    }
}

impl VersionRole {
    /// The side in words.
    pub fn description(&self) -> (text: &'static str)
        ensures
            text@ == role_text(*self),
    {
        match self {
            VersionRole::Added => "added file",
            VersionRole::ModifiedBefore => "modified file before version",
            VersionRole::ModifiedAfter => "modified file after version",
            VersionRole::Deleted => "deleted file",
            VersionRole::RenamedBefore => "renamed file before version",
            VersionRole::RenamedAfter => "renamed file after version",
            VersionRole::TypeChangedBefore => "type-changed file before version",
            VersionRole::TypeChangedAfter => "type-changed file after version",
        }
    }
}

impl DeltaStatus {
    /// The name of the status.
    pub fn name(&self) -> (text: &'static str)
        ensures
            text@ == status_text(*self),
    {
        match self {
            DeltaStatus::Unmodified => "Unmodified",
            DeltaStatus::Added => "Added",
            DeltaStatus::Deleted => "Deleted",
            DeltaStatus::Modified => "Modified",
            DeltaStatus::Renamed => "Renamed",
            DeltaStatus::Copied => "Copied",
            DeltaStatus::Ignored => "Ignored",
            DeltaStatus::Untracked => "Untracked",
            DeltaStatus::Typechange => "Typechange",
            DeltaStatus::Unreadable => "Unreadable",
            DeltaStatus::Conflicted => "Conflicted",
        }
    }
}

impl DeltaError {
    /// What the error is reported as.
    pub fn message(&self) -> (message: String)
        ensures
            message@ == error_text(*self),
    {
        match self {
            DeltaError::Missing { role } => {
                let mut message = "libgit2 reported a missing ".to_owned();
                message.append(role.description());
                message
            },
            DeltaError::NoPath { role } => {
                let mut message = "libgit2 omitted the path for ".to_owned();
                message.append(role.description());
                message
            },
            DeltaError::NoId { role, path } => {
                let mut message = "libgit2 omitted the object ID for ".to_owned();
                message.append(role.description());
                message.append(" at ");
                message.append(&path.display());
                message
            },
            DeltaError::NoConflictPath => {
                "libgit2 omitted the path for an unmerged change".to_owned()
            },
            DeltaError::Unsupported { status } => {
                let mut message =
                    "libgit2 returned unsupported prospective commit status: ".to_owned();
                message.append(status.name());
                message
            },
        }
    }
}

/// Whether an object ID is the null ID.
pub open spec fn is_zero(oid: ObjectId) -> bool {
    forall|i: int| 0 <= i < oid@.len() ==> #[trigger] oid@[i] == 0
}

impl ObjectId {
    /// Whether this is the null ID.
    pub fn is_zero(&self) -> (result: bool)
        ensures
            result == is_zero(*self),
    {
        for i in 0..self.bytes.len()
            invariant
                forall|j: int| 0 <= j < i ==> #[trigger] self@[j] == 0,
        {
            if self.bytes[i] != 0 {
                assert(self@[i as int] != 0);
                return false;
            }
        }
        true
    }
}

/// The version that a side of a delta holds: it exists, has a path and has an object ID.
pub open spec fn version(file: DeltaFile, role: VersionRole) -> Result<FileVersion, DeltaError> {
    if !file.exists {
        Err(DeltaError::Missing { role })
    } else {
        match file.path {
            None => Err(DeltaError::NoPath { role }),
            Some(path) => if is_zero(file.oid) {
                Err(DeltaError::NoId { role, path })
            } else {
                Ok(FileVersion { path, oid: file.oid, mode: file.mode })
            },
        }
    }
}

/// The versions on both sides of a delta; a fault of the old side is reported first.
pub open spec fn versions(
    old_file: DeltaFile,
    before: VersionRole,
    new_file: DeltaFile,
    after: VersionRole,
) -> Result<(FileVersion, FileVersion), DeltaError> {
    match version(old_file, before) {
        Err(error) => Err(error),
        Ok(old_version) => match version(new_file, after) {
            Err(error) => Err(error),
            Ok(new_version) => Ok((old_version, new_version)),
        },
    }
}

/// The change that a delta with this status and these sides is.
pub open spec fn change_kind(
    status: DeltaStatus,
    old_file: DeltaFile,
    new_file: DeltaFile,
) -> Result<CommitChangeKind, DeltaError> {
    match status {
        DeltaStatus::Added => match version(new_file, VersionRole::Added) {
            Ok(after) => Ok(CommitChangeKind::Added { after }),
            Err(error) => Err(error),
        },
        DeltaStatus::Modified => match versions(
            old_file,
            VersionRole::ModifiedBefore,
            new_file,
            VersionRole::ModifiedAfter,
        ) {
            Ok((before, after)) => Ok(CommitChangeKind::Modified { before, after }),
            Err(error) => Err(error),
        },
        DeltaStatus::Deleted => match version(old_file, VersionRole::Deleted) {
            Ok(before) => Ok(CommitChangeKind::Deleted { before }),
            Err(error) => Err(error),
        },
        DeltaStatus::Renamed => match versions(
            old_file,
            VersionRole::RenamedBefore,
            new_file,
            VersionRole::RenamedAfter,
        ) {
            Ok((before, after)) => Ok(CommitChangeKind::Renamed { before, after }),
            Err(error) => Err(error),
        },
        DeltaStatus::Typechange => match versions(
            old_file,
            VersionRole::TypeChangedBefore,
            new_file,
            VersionRole::TypeChangedAfter,
        ) {
            Ok((before, after)) => Ok(CommitChangeKind::TypeChanged { before, after }),
            Err(error) => Err(error),
        },
        DeltaStatus::Conflicted => match (new_file.path, old_file.path) {
            (Some(path), _) => Ok(CommitChangeKind::Unmerged { path }),
            (None, Some(path)) => Ok(CommitChangeKind::Unmerged { path }),
            (None, None) => Err(DeltaError::NoConflictPath),
        },
        _ => Err(DeltaError::Unsupported { status }),
    }
}

/// Convert one side of a raw delta into a validated file version.
pub fn file_version(file: DeltaFile, role: VersionRole) -> (result: Result<FileVersion, DeltaError>)
    ensures
        result == version(file, role),
{
    if !file.exists {
        return Err(DeltaError::Missing { role });
    }
    match file.path {
        None => Err(DeltaError::NoPath { role }),
        Some(path) => {
            if file.oid.is_zero() {
                Err(DeltaError::NoId { role, path })
            } else {
                Ok(FileVersion { path, oid: file.oid, mode: file.mode })
            }
        },
    }
}

/// Convert both sides of a raw delta into validated file versions.
fn file_versions(
    old_file: DeltaFile,
    before: VersionRole,
    new_file: DeltaFile,
    after: VersionRole,
) -> (result: Result<(FileVersion, FileVersion), DeltaError>)
    ensures
        result == versions(old_file, before, new_file, after),
{
    match file_version(old_file, before) {
        Err(error) => Err(error),
        Ok(old_version) => match file_version(new_file, after) {
            Err(error) => Err(error),
            Ok(new_version) => Ok((old_version, new_version)),
        },
    }
}

/// Convert the status and sides of a raw delta into the kind of a commit change.
pub fn commit_change_kind(status: DeltaStatus, old_file: DeltaFile, new_file: DeltaFile) -> (result:
    Result<CommitChangeKind, DeltaError>)
    ensures
        result == change_kind(status, old_file, new_file),
{
    match status {
        DeltaStatus::Added => match file_version(new_file, VersionRole::Added) {
            Ok(after) => Ok(CommitChangeKind::Added { after }),
            Err(error) => Err(error),
        },
        DeltaStatus::Modified => {
            match file_versions(
                old_file,
                VersionRole::ModifiedBefore,
                new_file,
                VersionRole::ModifiedAfter,
            ) {
                Ok((before, after)) => Ok(CommitChangeKind::Modified { before, after }),
                Err(error) => Err(error),
            }
        },
        DeltaStatus::Deleted => match file_version(old_file, VersionRole::Deleted) {
            Ok(before) => Ok(CommitChangeKind::Deleted { before }),
            Err(error) => Err(error),
        },
        DeltaStatus::Renamed => {
            match file_versions(
                old_file,
                VersionRole::RenamedBefore,
                new_file,
                VersionRole::RenamedAfter,
            ) {
                Ok((before, after)) => Ok(CommitChangeKind::Renamed { before, after }),
                Err(error) => Err(error),
            }
        },
        DeltaStatus::Typechange => {
            match file_versions(
                old_file,
                VersionRole::TypeChangedBefore,
                new_file,
                VersionRole::TypeChangedAfter,
            ) {
                Ok((before, after)) => Ok(CommitChangeKind::TypeChanged { before, after }),
                Err(error) => Err(error),
            }
        },
        DeltaStatus::Conflicted => {
            match new_file.path {
                Some(path) => Ok(CommitChangeKind::Unmerged { path }),
                None => match old_file.path {
                    Some(path) => Ok(CommitChangeKind::Unmerged { path }),
                    None => Err(DeltaError::NoConflictPath),
                },
            }
        },
        DeltaStatus::Unmodified => Err(DeltaError::Unsupported { status }),
        DeltaStatus::Copied => Err(DeltaError::Unsupported { status }),
        DeltaStatus::Ignored => Err(DeltaError::Unsupported { status }),
        DeltaStatus::Untracked => Err(DeltaError::Unsupported { status }),
        DeltaStatus::Unreadable => Err(DeltaError::Unsupported { status }),
    }
}

/// The range of `count` lines from `start`, where there are any.
pub open spec fn nonempty_range(start: u32, count: u32) -> Option<LineRange> {
    if count == 0 {
        None
    } else {
        Some(LineRange { start: start as usize, count: count as usize })
    }
}

/// The changed ranges on each side of a raw hunk.
pub open spec fn hunk_ranges(lines: HunkLines) -> DiffHunk {
    DiffHunk {
        before: nonempty_range(lines.old_start, lines.old_lines),
        after: nonempty_range(lines.new_start, lines.new_lines),
    }
}

/// The hunks of a change: a conflict has none.
pub open spec fn change_hunks(status: DeltaStatus, hunks: Seq<HunkLines>) -> Seq<DiffHunk> {
    if status == DeltaStatus::Conflicted {
        seq![]
    } else {
        hunks.map_values(|lines: HunkLines| hunk_ranges(lines))
    }
}

/// Convert a non-empty raw line range.
pub fn line_range(start: u32, count: u32) -> (result: Option<LineRange>)
    ensures
        result == nonempty_range(start, count),
{
    if count == 0 {
        None
    } else {
        Some(LineRange { start: start as usize, count: count as usize })
    }
}

/// Convert one raw delta into an owned commit change.
pub fn commit_change(
    status: DeltaStatus,
    old_file: DeltaFile,
    new_file: DeltaFile,
    hunks: &[HunkLines],
) -> (result: Result<CommitChange, DeltaError>)
    ensures
        match result {
            Ok(change) => change_kind(status, old_file, new_file) == Ok::<_, DeltaError>(
                change.kind,
            ) && change.hunks@ == change_hunks(status, hunks@),
            Err(error) => change_kind(status, old_file, new_file) == Err::<CommitChangeKind, _>(
                error,
            ),
        },
{
    match commit_change_kind(status, old_file, new_file) {
        Err(error) => Err(error),
        Ok(kind) => {
            let mut ranges: Vec<DiffHunk> = Vec::new();
            if status != DeltaStatus::Conflicted {
                for i in 0..hunks.len()
                    invariant
                        ranges@ == hunks@.take(i as int).map_values(
                            |lines: HunkLines| hunk_ranges(lines),
                        ),
                {
                    let lines = hunks[i];
                    ranges.push(
                        DiffHunk {
                            before: line_range(lines.old_start, lines.old_lines),
                            after: line_range(lines.new_start, lines.new_lines),
                        },
                    );
                    assert(ranges@ =~= hunks@.take(i + 1).map_values(
                        |lines: HunkLines| hunk_ranges(lines),
                    ));
                }
                assert(hunks@.take(hunks@.len() as int) =~= hunks@);
            }
            Ok(CommitChange { kind, hunks: ranges })
        },
    }
}

/// One line of a printed diff.
#[derive(Debug, Clone, PartialEq, Eq)]
pub struct PatchLine {
    /// What the line is: context, added, removed, or part of a header.
    pub origin: char,
    /// Contents of the line.
    pub content: Vec<u8>,
}

/// The marker in front of a context, added or removed line.
pub open spec fn line_marker(origin: char) -> Seq<u8> {
    if origin == ' ' {
        seq![32]
    } else if origin == '+' {
        seq![43]
    } else if origin == '-' {
        seq![45]
    } else {
        seq![]
    }
}

/// The patch with the given lines.
pub open spec fn patch_bytes(lines: Seq<PatchLine>) -> Seq<u8>
    decreases lines.len(),
{
    if lines.len() == 0 {
        seq![]
    } else {
        patch_bytes(lines.drop_last()) + line_marker(lines.last().origin) + lines.last().content@
    }
}

/// Render diff lines as a patch.
pub fn render_patch(lines: &[PatchLine]) -> (output: Vec<u8>)
    ensures
        output@ == patch_bytes(lines@),
{
    let mut output: Vec<u8> = Vec::new();
    for i in 0..lines.len()
        invariant
            output@ == patch_bytes(lines@.take(i as int)),
    {
        assert(lines@.take(i + 1).drop_last() =~= lines@.take(i as int));
        let ghost before = output@;
        let line = &lines[i];
        if line.origin == ' ' {
            output.push(32);
        } else if line.origin == '+' {
            output.push(43);
        } else if line.origin == '-' {
            output.push(45);
        }
        assert(output@ =~= before + line_marker(line.origin));
        bytes::append_bytes(&mut output, &line.content);
    }
    assert(lines@.take(lines@.len() as int) =~= lines@);
    output
}

/// A change keeps the object of each side that it has: what is read back is what the delta held.
pub proof fn lemma_changes_keep_their_objects(
    status: DeltaStatus,
    old_file: DeltaFile,
    new_file: DeltaFile,
)
    ensures
        change_kind(status, old_file, new_file) matches Ok(kind) ==> {
            &&& change::version_before(kind) matches Some(before) ==> before.oid == old_file.oid
                && before.mode == old_file.mode && old_file.path == Some(before.path)
            &&& change::version_after(kind) matches Some(after) ==> after.oid == new_file.oid
                && after.mode == new_file.mode && new_file.path == Some(after.path)
        },
{
}

/// A delta becomes the change that its status names, and has the sides that such a change has:
/// only an addition lacks the old one, only a deletion lacks the new one. A side that exists with a
/// path and an object ID is never refused.
pub proof fn lemma_deltas_become_what_their_status_names(
    status: DeltaStatus,
    old_file: DeltaFile,
    new_file: DeltaFile,
)
    ensures
        change_kind(status, old_file, new_file) matches Ok(kind) ==> {
            &&& kind is Added <==> status is Added
            &&& kind is Deleted <==> status is Deleted
            &&& kind is Modified <==> status is Modified
            &&& kind is Renamed <==> status is Renamed
            &&& kind is TypeChanged <==> status is Typechange
            &&& kind is Unmerged <==> status is Conflicted
            &&& change::version_before(kind) is Some <==> !(status is Added || status is Conflicted)
            &&& change::version_after(kind) is Some <==> !(status is Deleted || status is Conflicted)
        },
        status is Added || status is Deleted || status is Modified || status is Renamed || status
            is Typechange ==> (change_kind(status, old_file, new_file) is Ok <==> (status is Added
            || (old_file.exists && old_file.path is Some && !is_zero(old_file.oid))) && (status
            is Deleted || (new_file.exists && new_file.path is Some && !is_zero(new_file.oid)))),
        status is Conflicted ==> (change_kind(status, old_file, new_file) is Ok <==> old_file.path
            is Some || new_file.path is Some),
        status is Conflicted && new_file.path is Some ==> change_kind(status, old_file, new_file)
            == Ok::<_, DeltaError>(CommitChangeKind::Unmerged { path: new_file.path->0 }),
        status is Unmodified || status is Copied || status is Ignored || status is Untracked
            || status is Unreadable ==> change_kind(status, old_file, new_file) is Err,
{
}

/// The hunks of a change hold exactly the lines that the raw hunks hold, side by side.
pub proof fn lemma_hunks_keep_their_lines(
    status: DeltaStatus,
    hunks: Seq<HunkLines>,
    i: int,
    line: int,
)
    requires
        status !is Conflicted,
        0 <= i < hunks.len(),
    ensures
        change_hunks(status, hunks).len() == hunks.len(),
        (change_hunks(status, hunks)[i].before matches Some(range) && hunk::has_line(range, line))
            <==> hunks[i].old_start <= line < hunks[i].old_start + hunks[i].old_lines,
        (change_hunks(status, hunks)[i].after matches Some(range) && hunk::has_line(range, line))
            <==> hunks[i].new_start <= line < hunks[i].new_start + hunks[i].new_lines,
{
}

/// The patch of lines in a row is the patches of the lines in a row.
pub proof fn lemma_patches_follow_each_other(first: Seq<PatchLine>, second: Seq<PatchLine>)
    ensures
        patch_bytes(first + second) == patch_bytes(first) + patch_bytes(second),
    decreases second.len(),
{
    if second.len() == 0 {
        assert(first + second =~= first);
        assert(patch_bytes(first) + patch_bytes(second) =~= patch_bytes(first));
    } else {
        assert((first + second).drop_last() =~= first + second.drop_last());
        lemma_patches_follow_each_other(first, second.drop_last());
        assert(patch_bytes(first + second) =~= patch_bytes(first) + patch_bytes(second));
    }
}

/// A context, added or removed line stands behind the character that says which it is; every other
/// line stands as it is.
pub proof fn lemma_patch_lines_stand_behind_their_marker(line: PatchLine)
    ensures
        line.origin == ' ' || line.origin == '+' || line.origin == '-' ==> patch_bytes(seq![line])
            == seq![line.origin as u8] + line.content@,
        line.origin != ' ' && line.origin != '+' && line.origin != '-' ==> patch_bytes(seq![line])
            == line.content@,
{
    assert(seq![line].drop_last() =~= seq![]);
    assert(patch_bytes(seq![]) =~= seq![]);
    assert(patch_bytes(seq![line]) =~= line_marker(line.origin) + line.content@);
    assert(seq![] + line.content@ =~= line.content@);
}

} // verus!
