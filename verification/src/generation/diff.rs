//! The concrete diff of a prospective commit, without excluded files.

use vstd::prelude::*;
use vstd::string::StringExecFns;

use crate::bytes;
use crate::bytes::LINE_FEED;
use crate::git::change;
use crate::git::change::{CommitChange, CommitChangeKind, FileVersion, ProspectiveCommit};
use crate::order;
use crate::path;
use crate::path::RepoPath;
use crate::text;

verus! {

/// What the block of one file in a patch starts with: `diff --git `.
pub open spec fn block_mark() -> Seq<u8> {
    seq![100, 105, 102, 102, 32, 45, 45, 103, 105, 116, 32]
}

/// The mark of a block in words.
pub proof fn lemma_block_mark_is_diff_git()
    ensures
        block_mark() == vstd::utf8::encode_utf8("diff --git "@),
{
    reveal_strlit("diff --git ");
    assert("diff --git "@ =~= seq!['d', 'i', 'f', 'f', ' ', '-', '-', 'g', 'i', 't', ' ']);
    vstd::utf8::is_ascii_chars_encode_utf8("diff --git "@);
    assert(vstd::utf8::encode_utf8("diff --git "@) =~= block_mark());
}

/// Whether the block of a file starts at an index: the mark stands there, at the start of a line.
pub open spec fn is_block_start(patch: Seq<u8>, at: int) -> bool {
    text::occurs_at(block_mark(), patch, at) && (at == 0 || patch[at - 1] == LINE_FEED)
}

/// The indexes before `end` at which blocks start.
pub open spec fn block_starts(patch: Seq<u8>, end: nat) -> Seq<int>
    decreases end,
{
    if end == 0 {
        seq![]
    } else {
        let before = block_starts(patch, (end - 1) as nat);
        if is_block_start(patch, end - 1) {
            before.push(end - 1)
        } else {
            before
        }
    }
}

/// The blocks that start at the given indexes: each ends where the next one starts.
pub open spec fn blocks_from(patch: Seq<u8>, starts: Seq<int>) -> Seq<Seq<u8>> {
    Seq::new(
        starts.len(),
        |i: int|
            patch.subrange(
                starts[i],
                if i + 1 < starts.len() {
                    starts[i + 1]
                } else {
                    patch.len() as int
                },
            ),
    )
}

/// The blocks of a patch, one for each file.
pub open spec fn blocks(patch: Seq<u8>) -> Seq<Seq<u8>> {
    blocks_from(patch, block_starts(patch, patch.len()))
}

/// Whether a path lies at or below one of the excluded paths.
pub open spec fn is_excluded_path(path: Seq<u8>, excluded: Seq<Seq<u8>>) -> bool {
    exists|i: int| 0 <= i < excluded.len() && path::covers(#[trigger] excluded[i], path)
}

/// Whether one side of a change is excluded.
pub open spec fn is_excluded_version(version: Option<FileVersion>, excluded: Seq<Seq<u8>>) -> bool {
    match version {
        Some(version) => is_excluded_path(version.path@, excluded),
        None => false,
    }
}

/// Whether a change touches an excluded path.
pub open spec fn excludes(change: CommitChange, excluded: Seq<Seq<u8>>) -> bool {
    ||| is_excluded_version(change::version_before(change.kind), excluded)
    ||| is_excluded_version(change::version_after(change.kind), excluded)
    ||| match change.kind {
        CommitChangeKind::Unmerged { path } => is_excluded_path(path@, excluded),
        _ => false,
    }
}

/// The blocks of the changes that touch no excluded path, one after the other.
pub open spec fn kept_blocks(
    changes: Seq<CommitChange>,
    blocks: Seq<Seq<u8>>,
    excluded: Seq<Seq<u8>>,
) -> Seq<u8>
    decreases changes.len(),
{
    if changes.len() == 0 {
        seq![]
    } else {
        let before = kept_blocks(changes.drop_last(), blocks, excluded);
        if excludes(changes.last(), excluded) {
            before
        } else {
            before + blocks[changes.len() - 1]
        }
    }
}

/// A patch whose blocks do not match the changes of its commit.
#[derive(Debug, Clone, Copy, PartialEq, Eq, Structural)]
pub struct BlockMismatch {
    /// Number of changes.
    pub expected: usize,
    /// Number of blocks.
    pub found: usize,
}

/// What the mismatch is reported as.
pub open spec fn mismatch_text(mismatch: BlockMismatch) -> Seq<char> {
    "could not safely exclude diff paths: expected "@ + text::decimal(mismatch.expected as nat)
        + " file patch blocks, found "@ + text::decimal(mismatch.found as nat)
}

/// The patch of a commit as text, without the blocks of excluded files.
pub open spec fn diff_text(commit: ProspectiveCommit, excluded: Seq<Seq<u8>>) -> Result<
    Seq<char>,
    BlockMismatch,
> {
    if excluded.len() == 0 {
        Ok(text::lossy_utf8(commit.patch@))
    } else {
        let found = blocks(commit.patch@);
        if found.len() != commit.changes@.len() {
            Err(
                BlockMismatch {
                    expected: commit.changes@.len() as usize,
                    found: found.len() as usize,
                },
            )
        } else {
            Ok(text::lossy_utf8(kept_blocks(commit.changes@, found, excluded)))
        }
    }
}

impl BlockMismatch {
    /// What the mismatch is reported as.
    pub fn message(&self) -> (message: String)
        ensures
            message@ == mismatch_text(*self),
    {
        let mut message = "could not safely exclude diff paths: expected ".to_owned();
        text::append_decimal(&mut message, self.expected as u64);
        message.append(" file patch blocks, found ");
        text::append_decimal(&mut message, self.found as u64);
        message
    }
}

/// The starts of blocks are marks within the patch, in ascending order.
pub proof fn lemma_block_starts(patch: Seq<u8>, end: nat)
    requires
        end <= patch.len(),
    ensures
        block_starts(patch, end).len() <= end,
        forall|i: int|
            0 <= i < block_starts(patch, end).len() ==> 0 <= #[trigger] block_starts(patch, end)[i]
                < end && is_block_start(patch, block_starts(patch, end)[i]),
        forall|i: int, j: int|
            0 <= i < j < block_starts(patch, end).len() ==> #[trigger] block_starts(patch, end)[i]
                < #[trigger] block_starts(patch, end)[j],
    decreases end,
{
    if end > 0 {
        lemma_block_starts(patch, (end - 1) as nat);
    }
}

/// Split a patch into its per-file diff blocks.
pub fn patch_blocks(patch: &[u8]) -> (result: Vec<Vec<u8>>)
    ensures
        bytes::blobs(result@) == blocks(patch@),
{
    let mark: Vec<u8> = vec![100, 105, 102, 102, 32, 45, 45, 103, 105, 116, 32];
    assert(mark@ =~= block_mark());
    let mut starts: Vec<usize> = Vec::new();
    let ghost mut indexes: Seq<int> = seq![];
    for at in 0..patch.len()
        invariant
            mark@ == block_mark(),
            indexes == block_starts(patch@, at as nat),
            indexes.len() == starts@.len(),
            forall|i: int| 0 <= i < starts@.len() ==> starts@[i] == #[trigger] indexes[i],
    {
        let line_start = at == 0 || patch[at - 1] == LINE_FEED;
        let found = line_start && patch.len() - at >= mark.len() && bytes::same_bytes(
            &bytes::bytes_between(patch, at, at + mark.len()),
            &mark,
        );
        assert(found == is_block_start(patch@, at as int));
        if found {
            starts.push(at);
            proof {
                indexes = indexes.push(at as int);
            }
        }
    }
    proof {
        lemma_block_starts(patch@, patch@.len());
    }
    let mut result: Vec<Vec<u8>> = Vec::new();
    assert(bytes::blobs(result@) =~= blocks_from(patch@, indexes).take(0));
    for i in 0..starts.len()
        invariant
            indexes == block_starts(patch@, patch@.len()),
            indexes.len() == starts@.len(),
            forall|i: int| 0 <= i < starts@.len() ==> starts@[i] == #[trigger] indexes[i],
            bytes::blobs(result@) == blocks_from(patch@, indexes).take(i as int),
    {
        proof {
            lemma_block_starts(patch@, patch@.len());
            assert(starts@[i as int] == indexes[i as int]);
        }
        let end = if i + 1 < starts.len() {
            assert(starts@[i + 1] == indexes[i + 1]);
            starts[i + 1]
        } else {
            patch.len()
        };
        let block = bytes::bytes_between(patch, starts[i], end);
        proof {
            bytes::lemma_blobs_push(result@, block);
        }
        result.push(block);
        assert(blocks_from(patch@, indexes).take(i + 1) =~= blocks_from(patch@, indexes).take(
            i as int,
        ).push(block@));
    }
    assert(blocks_from(patch@, indexes).take(starts@.len() as int) =~= blocks_from(
        patch@,
        indexes,
    ));
    result
}

/// Whether a path lies at or below one of the excluded paths.
fn excludes_path(path: &RepoPath, excluded: &[RepoPath]) -> (result: bool)
    ensures
        result == is_excluded_path(path@, order::path_bytes(excluded@)),
{
    let ghost views = order::path_bytes(excluded@);
    for i in 0..excluded.len()
        invariant
            views == order::path_bytes(excluded@),
            forall|j: int| 0 <= j < i ==> !path::covers(#[trigger] views[j], path@),
    {
        assert(views[i as int] == excluded@[i as int]@);
        if excluded[i].covers(path) {
            return true;
        }
    }
    false
}

/// Check whether a change touches an excluded path.
pub fn is_excluded(change: &CommitChange, excluded: &[RepoPath]) -> (result: bool)
    ensures
        result == excludes(*change, order::path_bytes(excluded@)),
{
    if let Some(version) = change.before() {
        if excludes_path(&version.path, excluded) {
            return true;
        }
    }
    if let Some(version) = change.after() {
        if excludes_path(&version.path, excluded) {
            return true;
        }
    }
    match &change.kind {
        CommitChangeKind::Unmerged { path } => excludes_path(path, excluded),
        _ => false,
    }
}

/// Return the patch with complete per-file blocks removed for excluded paths.
///
/// A patch holds one `diff --git` block for each change, in the same order. The prompt is refused
/// if that does not hold, rather than leaking an excluded file's contents.
pub fn filtered_diff(commit: &ProspectiveCommit, excluded: &[RepoPath]) -> (result: Result<
    String,
    BlockMismatch,
>)
    ensures
        match result {
            Ok(diff) => diff_text(*commit, order::path_bytes(excluded@)) == Ok::<_, BlockMismatch>(
                diff@,
            ),
            Err(mismatch) => diff_text(*commit, order::path_bytes(excluded@)) == Err::<
                Seq<char>,
                _,
            >(mismatch),
        },
{
    if excluded.len() == 0 {
        return Ok(text::lossy_text(&commit.patch));
    }
    let ghost views = order::path_bytes(excluded@);
    let found = patch_blocks(&commit.patch);
    let ghost all = blocks(commit.patch@);
    assert(found@.len() == bytes::blobs(found@).len());
    if found.len() != commit.changes.len() {
        return Err(BlockMismatch { expected: commit.changes.len(), found: found.len() });
    }
    let mut output: Vec<u8> = Vec::new();
    for i in 0..found.len()
        invariant
            views == order::path_bytes(excluded@),
            all == bytes::blobs(found@),
            found@.len() == commit.changes@.len(),
            output@ == kept_blocks(commit.changes@.take(i as int), all, views),
    {
        assert(commit.changes@.take(i + 1).drop_last() =~= commit.changes@.take(i as int));
        assert(all[i as int] == found@[i as int]@);
        if !is_excluded(&commit.changes[i], excluded) {
            bytes::append_bytes(&mut output, &found[i]);
        }
    }
    assert(commit.changes@.take(commit.changes@.len() as int) =~= commit.changes@);
    Ok(text::lossy_text(&output))
}

/// All of some byte sequences, one after the other.
pub open spec fn all_bytes(parts: Seq<Seq<u8>>) -> Seq<u8>
    decreases parts.len(),
{
    if parts.len() == 0 {
        seq![]
    } else {
        all_bytes(parts.drop_last()) + parts.last()
    }
}

/// The blocks of a patch are the patch from its first block on: nothing lies between them.
pub proof fn lemma_blocks_make_up_the_patch(patch: Seq<u8>)
    requires
        blocks(patch).len() > 0,
    ensures
        all_bytes(blocks(patch)) == patch.skip(block_starts(patch, patch.len())[0]),
{
    let starts = block_starts(patch, patch.len());
    lemma_block_starts(patch, patch.len());
    lemma_first_blocks(patch, starts, starts.len());
    assert(blocks(patch).take(starts.len() as int) =~= blocks(patch));
    assert(patch.subrange(starts[0], patch.len() as int) =~= patch.skip(starts[0]));
}

proof fn lemma_first_blocks(patch: Seq<u8>, starts: Seq<int>, count: nat)
    requires
        0 < count <= starts.len(),
        forall|i: int| 0 <= i < starts.len() ==> 0 <= #[trigger] starts[i] < patch.len(),
        forall|i: int, j: int|
            0 <= i < j < starts.len() ==> #[trigger] starts[i] < #[trigger] starts[j],
    ensures
        all_bytes(blocks_from(patch, starts).take(count as int)) == patch.subrange(
            starts[0],
            if count < starts.len() {
                starts[count as int]
            } else {
                patch.len() as int
            },
        ),
    decreases count,
{
    let all = blocks_from(patch, starts);
    let parts = all.take(count as int);
    assert(parts.drop_last() =~= all.take(count - 1));
    if count == 1 {
        assert(all.take(0) =~= seq![]);
        assert(all_bytes(parts.drop_last()) =~= seq![]);
        assert(all_bytes(parts) =~= all[0]);
    } else {
        lemma_first_blocks(patch, starts, (count - 1) as nat);
        assert(all_bytes(parts) =~= patch.subrange(
            starts[0],
            if count < starts.len() {
                starts[count as int]
            } else {
                patch.len() as int
            },
        ));
    }
}

/// Whether blocks differ at most where a change is excluded.
pub open spec fn differ_where_excluded(
    changes: Seq<CommitChange>,
    left: Seq<Seq<u8>>,
    right: Seq<Seq<u8>>,
    excluded: Seq<Seq<u8>>,
) -> bool {
    &&& left.len() == right.len()
    &&& forall|i: int|
        0 <= i < changes.len() && !excludes(#[trigger] changes[i], excluded) ==> left[i]
            == right[i]
}

proof fn lemma_excluded_blocks_do_not_count(
    changes: Seq<CommitChange>,
    left: Seq<Seq<u8>>,
    right: Seq<Seq<u8>>,
    excluded: Seq<Seq<u8>>,
)
    requires
        differ_where_excluded(changes, left, right, excluded),
    ensures
        kept_blocks(changes, left, excluded) == kept_blocks(changes, right, excluded),
    decreases changes.len(),
{
    if changes.len() > 0 {
        let rest = changes.drop_last();
        assert forall|i: int|
            0 <= i < rest.len() && !excludes(#[trigger] rest[i], excluded) implies left[i]
            == right[i] by {
            assert(rest[i] == changes[i]);
        }
        lemma_excluded_blocks_do_not_count(rest, left, right, excluded);
        assert(changes[changes.len() - 1] == changes.last());
    }
}

/// The contents of excluded changes never show: commits that differ only in the blocks of excluded
/// changes have the same diff.
pub proof fn lemma_excluded_contents_do_not_show(
    left: ProspectiveCommit,
    right: ProspectiveCommit,
    excluded: Seq<Seq<u8>>,
)
    requires
        excluded.len() > 0,
        left.changes@ == right.changes@,
        differ_where_excluded(left.changes@, blocks(left.patch@), blocks(right.patch@), excluded),
    ensures
        diff_text(left, excluded) == diff_text(right, excluded),
{
    lemma_excluded_blocks_do_not_count(
        left.changes@,
        blocks(left.patch@),
        blocks(right.patch@),
        excluded,
    );
}

/// Where no change is excluded, all blocks are kept.
pub proof fn lemma_other_changes_are_kept(
    changes: Seq<CommitChange>,
    blocks: Seq<Seq<u8>>,
    excluded: Seq<Seq<u8>>,
)
    requires
        changes.len() == blocks.len(),
        forall|i: int| 0 <= i < changes.len() ==> !excludes(#[trigger] changes[i], excluded),
    ensures
        kept_blocks(changes, blocks, excluded) == all_bytes(blocks),
{
    lemma_first_blocks_are_kept(changes, blocks, excluded);
    assert(blocks.take(changes.len() as int) =~= blocks);
}

proof fn lemma_first_blocks_are_kept(
    changes: Seq<CommitChange>,
    blocks: Seq<Seq<u8>>,
    excluded: Seq<Seq<u8>>,
)
    requires
        changes.len() <= blocks.len(),
        forall|i: int| 0 <= i < changes.len() ==> !excludes(#[trigger] changes[i], excluded),
    ensures
        kept_blocks(changes, blocks, excluded) == all_bytes(blocks.take(changes.len() as int)),
    decreases changes.len(),
{
    if changes.len() > 0 {
        let rest = changes.drop_last();
        assert forall|i: int| 0 <= i < rest.len() implies !excludes(
            #[trigger] rest[i],
            excluded,
        ) by {
            assert(rest[i] == changes[i]);
        }
        lemma_first_blocks_are_kept(rest, blocks, excluded);
        assert(!excludes(changes[changes.len() - 1], excluded));
        let taken = blocks.take(changes.len() as int);
        assert(taken.drop_last() =~= blocks.take(rest.len() as int));
        assert(taken.last() == blocks[changes.len() - 1]);
    }
}

/// Whether a version is that of a path.
pub open spec fn is_version_of(version: Option<FileVersion>, path: Seq<u8>) -> bool {
    match version {
        Some(version) => version.path@ == path,
        None => false,
    }
}

/// Whether a change is one of the file at a path, before it, after it, or in conflict.
pub open spec fn touches(change: CommitChange, path: Seq<u8>) -> bool {
    ||| is_version_of(change::version_before(change.kind), path)
    ||| is_version_of(change::version_after(change.kind), path)
    ||| match change.kind {
        CommitChangeKind::Unmerged { path: conflicted } => conflicted@ == path,
        _ => false,
    }
}

/// An excluded directory excludes every changed file below it.
pub proof fn lemma_excluded_directories_exclude_their_files(
    change: CommitChange,
    excluded: Seq<Seq<u8>>,
    directory: Seq<u8>,
    below: Seq<u8>,
)
    requires
        excluded.contains(directory),
        path::components(directory).len() > 0,
        touches(change, directory.push(path::SLASH) + below),
    ensures
        excludes(change, excluded),
{
    path::lemma_covers_everything_below(directory, below);
    let i = choose|i: int| 0 <= i < excluded.len() && excluded[i] == directory;
    assert(path::covers(excluded[i], directory.push(path::SLASH) + below));
}

/// An excluded file is excluded.
pub proof fn lemma_excluded_files_are_excluded(
    change: CommitChange,
    excluded: Seq<Seq<u8>>,
    file: Seq<u8>,
)
    requires
        excluded.contains(file),
        path::components(file).len() > 0,
        touches(change, file),
    ensures
        excludes(change, excluded),
{
    path::lemma_covers_itself(file);
    let i = choose|i: int| 0 <= i < excluded.len() && excluded[i] == file;
    assert(path::covers(excluded[i], file));
}

/// A change is excluded exactly where a path that it touches is covered by an excluded path.
pub proof fn lemma_only_covered_changes_are_excluded(
    change: CommitChange,
    excluded: Seq<Seq<u8>>,
)
    ensures
        excludes(change, excluded) <==> exists|path: Seq<u8>, i: int|
            0 <= i < excluded.len() && #[trigger] touches(change, path) && path::covers(
                #[trigger] excluded[i],
                path,
            ),
        excluded.len() == 0 ==> !excludes(change, excluded),
{
    if excludes(change, excluded) {
        let before = change::version_before(change.kind);
        let after = change::version_after(change.kind);
        let path = if is_excluded_version(before, excluded) {
            before->0.path@
        } else if is_excluded_version(after, excluded) {
            after->0.path@
        } else {
            change.kind->path@
        };
        assert(is_excluded_path(path, excluded));
        assert(touches(change, path));
    }
    if exists|path: Seq<u8>, i: int|
        0 <= i < excluded.len() && #[trigger] touches(change, path) && path::covers(
            #[trigger] excluded[i],
            path,
        ) {
        let (path, i) = choose|path: Seq<u8>, i: int|
            0 <= i < excluded.len() && #[trigger] touches(change, path) && path::covers(
                #[trigger] excluded[i],
                path,
            );
        assert(is_excluded_path(path, excluded));
    }
}

/// The patch block of every change that is not excluded is kept whole, whatever becomes of the
/// others.
pub proof fn lemma_blocks_of_other_changes_are_kept(
    changes: Seq<CommitChange>,
    blocks: Seq<Seq<u8>>,
    excluded: Seq<Seq<u8>>,
    i: int,
)
    requires
        0 <= i < changes.len() <= blocks.len(),
        !excludes(changes[i], excluded),
    ensures
        text::occurs(blocks[i], kept_blocks(changes, blocks, excluded)),
    decreases changes.len(),
{
    let rest = changes.drop_last();
    let before = kept_blocks(rest, blocks, excluded);
    if i == changes.len() - 1 {
        text::lemma_occurs_in_itself(blocks[i]);
        text::lemma_occurs_within(blocks[i], before, blocks[i], seq![]);
        assert(before + blocks[i] + seq![] =~= before + blocks[i]);
    } else {
        assert(rest[i] == changes[i]);
        lemma_blocks_of_other_changes_are_kept(rest, blocks, excluded, i);
        let last = if excludes(changes.last(), excluded) {
            seq![]
        } else {
            blocks[changes.len() - 1]
        };
        text::lemma_occurs_within(blocks[i], seq![], before, last);
        assert(seq![] + before + last =~= kept_blocks(changes, blocks, excluded));
    }
}

/// Nothing but those blocks is kept: together they are as long as the kept patch.
pub proof fn lemma_only_blocks_of_other_changes_are_kept(
    changes: Seq<CommitChange>,
    change: CommitChange,
    blocks: Seq<Seq<u8>>,
    excluded: Seq<Seq<u8>>,
)
    requires
        changes.len() < blocks.len(),
    ensures
        ({
            let before = kept_blocks(changes, blocks, excluded);
            let after = kept_blocks(changes.push(change), blocks, excluded);
            &&& excludes(change, excluded) ==> after == before
            &&& !excludes(change, excluded) ==> after == before + blocks[changes.len() as int]
        }),
        kept_blocks(seq![], blocks, excluded).len() == 0,
{
    assert(changes.push(change).drop_last() =~= changes);
}

/// A block starts wherever a line starts with `diff --git `, and nowhere else.
pub proof fn lemma_blocks_start_at_every_header(patch: Seq<u8>, end: nat, at: int)
    requires
        end <= patch.len(),
        0 <= at < end,
    ensures
        block_starts(patch, end).contains(at) <==> is_block_start(patch, at),
    decreases end,
{
    lemma_block_starts(patch, end);
    let starts = block_starts(patch, end);
    let before = block_starts(patch, (end - 1) as nat);
    if starts.contains(at) {
        let i = choose|i: int| 0 <= i < starts.len() && starts[i] == at;
        assert(is_block_start(patch, starts[i]));
    }
    if is_block_start(patch, at) {
        if at == end - 1 {
            assert(starts[before.len() as int] == at);
        } else {
            lemma_blocks_start_at_every_header(patch, (end - 1) as nat, at);
            let i = choose|i: int| 0 <= i < before.len() && before[i] == at;
            assert(starts[i] == at);
        }
    }
}

/// The diff is refused exactly where paths are excluded and the patch has not as many blocks as
/// there are changes. Where none of the changes is excluded, it is the patch from its first block on.
pub proof fn lemma_diffs_are_refused_only_where_blocks_are_missing(
    commit: ProspectiveCommit,
    excluded: Seq<Seq<u8>>,
)
    ensures
        diff_text(commit, excluded) is Err <==> excluded.len() > 0 && blocks(commit.patch@).len()
            != commit.changes@.len(),
        excluded.len() == 0 ==> diff_text(commit, excluded) == Ok::<_, BlockMismatch>(
            text::lossy_utf8(commit.patch@),
        ),
        diff_text(commit, excluded) is Ok && (forall|i: int|
            0 <= i < commit.changes@.len() ==> !excludes(#[trigger] commit.changes@[i], excluded))
            && is_block_start(commit.patch@, 0) ==> diff_text(commit, excluded) == Ok::<
            _,
            BlockMismatch,
        >(text::lossy_utf8(commit.patch@)),
{
    let patch = commit.patch@;
    if excluded.len() > 0 && diff_text(commit, excluded) is Ok && (forall|i: int|
        0 <= i < commit.changes@.len() ==> !excludes(#[trigger] commit.changes@[i], excluded))
        && is_block_start(patch, 0) {
        lemma_blocks_start_at_every_header(patch, patch.len(), 0);
        lemma_block_starts(patch, patch.len());
        let starts = block_starts(patch, patch.len());
        let i = choose|i: int| 0 <= i < starts.len() && starts[i] == 0;
        assert(i == 0) by {
            if i > 0 {
                assert(starts[0] < starts[i]);
            }
        }
        lemma_other_changes_are_kept(commit.changes@, blocks(patch), excluded);
        lemma_blocks_make_up_the_patch(patch);
        assert(patch.skip(0) =~= patch);
    }
}

} // verus!
