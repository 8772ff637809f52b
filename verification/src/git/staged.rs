//! NUL-delimited name-status output of Git.

use vstd::prelude::*;
use vstd::string::StringExecFns;

use crate::bytes;
use crate::number;
use crate::path::RepoPath;
use crate::text;

verus! {

/// The similarity of equal files, in percent.
pub const MAX_SIMILARITY: u8 = 100;

/// A single path-level change staged for the next commit.
///
/// Paths are relative to the repository root.
///
/// For ordinary additions, modifications, deletions, and type changes, [`path`](Self::path)
/// identifies the affected path directly. Renames and copies additionally store the source path
/// in [`StagedChangeKind`].
#[derive(Debug, Clone, PartialEq, Eq)]
pub struct StagedChange {
    /// The primary path associated with the staged change.
    ///
    /// For additions and modifications, this is the affected path; for deletions, this is the
    /// deleted path.
    ///
    /// For renames and copies, this is the destination path; the source path is stored in
    /// [`StagedChangeKind::Renamed`] or [`StagedChangeKind::Copied`].
    pub path: RepoPath,
    /// The kind of change staged for this path.
    pub kind: StagedChangeKind,
}

/// Describes how a staged path differs from the current `HEAD`.
#[derive(Debug, Clone, PartialEq, Eq)]
pub enum StagedChangeKind {
    /// A new file has been added.
    Added,
    /// An existing file has been modified.
    Modified,
    /// An existing file has been deleted.
    Deleted,
    /// A file has been renamed.
    Renamed {
        /// The original path.
        from: RepoPath,
        /// Git's similarity percentage, at most [`MAX_SIMILARITY`].
        similarity: u8,
    },
    /// A file has been copied.
    Copied {
        /// The original path.
        from: RepoPath,
        /// Git's similarity percentage, at most [`MAX_SIMILARITY`].
        similarity: u8,
    },
    /// The type of an entry has changed.
    ///
    /// For example, a regular file may have become a symbolic link.
    TypeChanged,
    /// The path is in an unmerged state.
    ///
    /// This normally indicates unresolved merge conflicts in the index.
    Unmerged,
}

/// Why name-status output is refused.
#[derive(Debug, Clone, PartialEq, Eq)]
pub enum StagedError {
    /// The output does not end in NUL.
    NotTerminated,
    /// A status is not UTF-8.
    StatusNotText,
    /// A status is empty.
    EmptyStatus,
    /// A record ends before its path.
    MissingPath,
    /// A path is not UTF-8.
    PathNotText,
    /// A rename or a copy has no similarity percentage.
    InvalidSimilarity {
        /// The status.
        status: String,
    },
    /// A status is not supported.
    Unsupported {
        /// The status.
        status: String,
    },
}

/// What a [`StagedChange`] holds.
pub ghost struct StagedView {
    pub path: Seq<u8>,
    pub kind: StagedKindView,
}

/// What a [`StagedChangeKind`] holds.
pub ghost enum StagedKindView {
    Added,
    Modified,
    Deleted,
    Renamed { from: Seq<u8>, similarity: int },
    Copied { from: Seq<u8>, similarity: int },
    TypeChanged,
    Unmerged,
}

/// What a [`StagedError`] holds.
pub ghost enum StagedFault {
    NotTerminated,
    StatusNotText,
    EmptyStatus,
    MissingPath,
    PathNotText,
    InvalidSimilarity { status: Seq<char> },
    Unsupported { status: Seq<char> },
}

impl View for StagedChangeKind {
    type V = StagedKindView;

    open spec fn view(&self) -> StagedKindView {
        match self {
            StagedChangeKind::Added => StagedKindView::Added,
            StagedChangeKind::Modified => StagedKindView::Modified,
            StagedChangeKind::Deleted => StagedKindView::Deleted,
            StagedChangeKind::Renamed { from, similarity } => StagedKindView::Renamed {
                from: from@,
                similarity: *similarity as int,
            },
            StagedChangeKind::Copied { from, similarity } => StagedKindView::Copied {
                from: from@,
                similarity: *similarity as int,
            },
            StagedChangeKind::TypeChanged => StagedKindView::TypeChanged,
            StagedChangeKind::Unmerged => StagedKindView::Unmerged,
        }
    }
}

impl View for StagedChange {
    type V = StagedView;

    open spec fn view(&self) -> StagedView {
        StagedView { path: self.path@, kind: self.kind@ }
    }
}

impl View for StagedError {
    type V = StagedFault;

    open spec fn view(&self) -> StagedFault {
        match self {
            StagedError::NotTerminated => StagedFault::NotTerminated,
            StagedError::StatusNotText => StagedFault::StatusNotText,
            StagedError::EmptyStatus => StagedFault::EmptyStatus,
            StagedError::MissingPath => StagedFault::MissingPath,
            StagedError::PathNotText => StagedFault::PathNotText,
            StagedError::InvalidSimilarity { status } => StagedFault::InvalidSimilarity {
                status: status@,
            },
            StagedError::Unsupported { status } => StagedFault::Unsupported { status: status@ },
        }
    }
}

/// What a sequence of changes holds.
pub open spec fn staged_views(changes: Seq<StagedChange>) -> Seq<StagedView> {
    changes.map_values(|change: StagedChange| change@)
}

/// The kind of a record with one path, by its status letter.
pub open spec fn simple_kind(letter: char) -> Option<StagedKindView> {
    if letter == 'A' {
        Some(StagedKindView::Added)
    } else if letter == 'M' {
        Some(StagedKindView::Modified)
    } else if letter == 'D' {
        Some(StagedKindView::Deleted)
    } else if letter == 'T' {
        Some(StagedKindView::TypeChanged)
    } else if letter == 'U' {
        Some(StagedKindView::Unmerged)
    } else {
        None
    }
}

/// The path in a field.
pub open spec fn path_field(fields: Seq<Seq<u8>>, at: int) -> Result<Seq<u8>, StagedFault> {
    if at >= fields.len() {
        Err(StagedFault::MissingPath)
    } else if !vstd::utf8::valid_utf8(fields[at]) {
        Err(StagedFault::PathNotText)
    } else {
        Ok(fields[at])
    }
}

/// The first record of non-empty fields, with the number of fields that it takes.
pub open spec fn first_record(fields: Seq<Seq<u8>>) -> Result<(StagedView, int), StagedFault> {
    if !vstd::utf8::valid_utf8(fields[0]) {
        Err(StagedFault::StatusNotText)
    } else {
        let status = vstd::utf8::decode_utf8(fields[0]);
        if status.len() == 0 {
            Err(StagedFault::EmptyStatus)
        } else if let Some(kind) = simple_kind(status[0]) {
            match path_field(fields, 1) {
                Ok(path) => Ok((StagedView { path, kind }, 2)),
                Err(fault) => Err(fault),
            }
        } else if status[0] == 'R' || status[0] == 'C' {
            match (
                number::number(status.skip(1), MAX_SIMILARITY as nat),
                path_field(fields, 1),
                path_field(fields, 2),
            ) {
                (None, _, _) => Err(StagedFault::InvalidSimilarity { status }),
                (_, Err(fault), _) => Err(fault),
                (_, _, Err(fault)) => Err(fault),
                (Some(similarity), Ok(from), Ok(path)) => Ok(
                    (
                        StagedView {
                            path,
                            kind: if status[0] == 'R' {
                                StagedKindView::Renamed { from, similarity: similarity as int }
                            } else {
                                StagedKindView::Copied { from, similarity: similarity as int }
                            },
                        },
                        3,
                    ),
                ),
            }
        } else {
            Err(StagedFault::Unsupported { status })
        }
    }
}

/// The records that fields hold; the first fault refuses them all.
pub open spec fn records(fields: Seq<Seq<u8>>) -> Result<Seq<StagedView>, StagedFault>
    decreases fields.len(),
{
    if fields.len() == 0 {
        Ok(seq![])
    } else {
        match first_record(fields) {
            Err(fault) => Err(fault),
            Ok((record, count)) => if 0 < count <= fields.len() {
                after_records(seq![record], records(fields.skip(count)))
            } else {
                Err(StagedFault::MissingPath)
            },
        }
    }
}

/// Records, with those of the rest behind them.
pub open spec fn after_records(done: Seq<StagedView>, rest: Result<Seq<StagedView>, StagedFault>) -> Result<
    Seq<StagedView>,
    StagedFault,
> {
    match rest {
        Ok(more) => Ok(done + more),
        Err(fault) => Err(fault),
    }
}

/// The changes that name-status output holds.
pub open spec fn staged(output: Seq<u8>) -> Result<Seq<StagedView>, StagedFault> {
    if output.len() == 0 {
        Ok(seq![])
    } else if output.last() != 0 {
        Err(StagedFault::NotTerminated)
    } else {
        records(text::split(output.drop_last(), 0u8))
    }
}

/// What a result of parsing holds.
pub open spec fn staged_result(result: Result<Vec<StagedChange>, StagedError>) -> Result<
    Seq<StagedView>,
    StagedFault,
> {
    match result {
        Ok(changes) => Ok(staged_views(changes@)),
        Err(error) => Err(error@),
    }
}

/// What a fault is reported as.
pub open spec fn fault_text(fault: StagedFault) -> Seq<char> {
    match fault {
        StagedFault::NotTerminated => "Git change status output is not NUL-terminated"@,
        StagedFault::StatusNotText => "Git change status is not valid UTF-8"@,
        StagedFault::EmptyStatus => "Git returned an empty change status"@,
        StagedFault::MissingPath => "Git change status is missing a path"@,
        StagedFault::PathNotText => "Git path is not valid UTF-8"@,
        StagedFault::InvalidSimilarity { status } => "Git returned invalid similarity score: "@
            + text::debug_text(status),
        StagedFault::Unsupported { status } => "Git returned unsupported change status: "@
            + text::debug_text(status),
    }
}

impl StagedError {
    /// What the error is reported as.
    pub fn message(&self) -> (message: String)
        ensures
            message@ == fault_text(self@),
    {
        match self {
            StagedError::NotTerminated => {
                "Git change status output is not NUL-terminated".to_owned()
            },
            StagedError::StatusNotText => "Git change status is not valid UTF-8".to_owned(),
            StagedError::EmptyStatus => "Git returned an empty change status".to_owned(),
            StagedError::MissingPath => "Git change status is missing a path".to_owned(),
            StagedError::PathNotText => "Git path is not valid UTF-8".to_owned(),
            StagedError::InvalidSimilarity { status } => {
                let mut message = "Git returned invalid similarity score: ".to_owned();
                message.append(&text::quoted(status));
                message
            },
            StagedError::Unsupported { status } => {
                let mut message = "Git returned unsupported change status: ".to_owned();
                message.append(&text::quoted(status));
                message
            },
        }
    }
}

impl StagedChange {
    /// Reads and decodes a pathname from NUL-delimited Git output.
    fn next_path(fields: &[Vec<u8>], at: usize, offset: usize) -> (result: Result<
        RepoPath,
        StagedError,
    >)
        requires
            at <= fields@.len(),
        ensures
            match result {
                Ok(path) => path_field(bytes::blobs(fields@).skip(at as int), offset as int)
                    == Ok::<_, StagedFault>(path@) && at + offset < fields@.len(),
                Err(error) => path_field(bytes::blobs(fields@).skip(at as int), offset as int)
                    == Err::<Seq<u8>, _>(error@),
            },
    {
        if offset >= fields.len() - at {
            return Err(StagedError::MissingPath);
        }
        let field = &fields[at + offset];
        assert(bytes::blobs(fields@).skip(at as int)[offset as int] == field@);
        match text::strict_text(field) {
            Some(_) => {
                let path = RepoPath { bytes: bytes::bytes_between(field, 0, field.len()) };
                assert(path@ =~= field@);
                Ok(path)
            },
            None => Err(StagedError::PathNotText),
        }
    }

    /// Reads the record that starts at a field, with the number of fields that it takes.
    fn record_at(fields: &[Vec<u8>], at: usize) -> (result: Result<
        (StagedChange, usize),
        StagedError,
    >)
        requires
            at < fields@.len(),
        ensures
            match result {
                Ok((change, count)) => first_record(bytes::blobs(fields@).skip(at as int))
                    == Ok::<_, StagedFault>((change@, count as int)) && 0 < count <= fields@.len()
                    - at,
                Err(error) => first_record(bytes::blobs(fields@).skip(at as int)) == Err::<
                    (StagedView, int),
                    _,
                >(error@),
            },
    {
        let ghost views = bytes::blobs(fields@);
        let ghost rest = views.skip(at as int);
        assert(rest[0] == fields@[at as int]@);
        let status = match text::strict_text(&fields[at]) {
            Some(status) => status,
            None => return Err(StagedError::StatusNotText),
        };
        let chars = text::chars_of(&status);
        if chars.len() == 0 {
            return Err(StagedError::EmptyStatus);
        }
        let letter = chars[0];
        let kind = if letter == 'A' {
            Some(StagedChangeKind::Added)
        } else if letter == 'M' {
            Some(StagedChangeKind::Modified)
        } else if letter == 'D' {
            Some(StagedChangeKind::Deleted)
        } else if letter == 'T' {
            Some(StagedChangeKind::TypeChanged)
        } else if letter == 'U' {
            Some(StagedChangeKind::Unmerged)
        } else {
            None
        };
        if let Some(kind) = kind {
            return match Self::next_path(fields, at, 1) {
                Ok(path) => Ok((StagedChange { path, kind }, 2)),
                Err(error) => Err(error),
            };
        }
        if letter != 'R' && letter != 'C' {
            return Err(StagedError::Unsupported { status });
        }
        let score = text::text_between(&chars, 1, chars.len());
        assert(score@ =~= status@.skip(1));
        let similarity = match number::parse_number(&score, MAX_SIMILARITY as u64) {
            Some(similarity) => similarity as u8,
            None => return Err(StagedError::InvalidSimilarity { status }),
        };
        let from = match Self::next_path(fields, at, 1) {
            Ok(from) => from,
            Err(error) => return Err(error),
        };
        let path = match Self::next_path(fields, at, 2) {
            Ok(path) => path,
            Err(error) => return Err(error),
        };
        let kind = if letter == 'R' {
            StagedChangeKind::Renamed { from, similarity }
        } else {
            StagedChangeKind::Copied { from, similarity }
        };
        Ok((StagedChange { path, kind }, 3))
    }

    /// Parses NUL-delimited `git diff --name-status` output.
    ///
    /// Rename and copy records contain two paths: the source path followed by the destination path.
    /// Other supported status records contain one path.
    pub fn parse(output: &[u8]) -> (result: Result<Vec<StagedChange>, StagedError>)
        ensures
            staged_result(result) == staged(output@),
    {
        let mut changes: Vec<StagedChange> = Vec::new();
        assert(staged_views(changes@) =~= seq![]);
        if output.len() == 0 {
            return Ok(changes);
        }
        if output[output.len() - 1] != 0 {
            return Err(StagedError::NotTerminated);
        }
        let body = bytes::bytes_between(output, 0, output.len() - 1);
        assert(body@ =~= output@.drop_last());
        let fields = bytes::split_bytes(&body, 0);
        let ghost views = bytes::blobs(fields@);
        let mut at: usize = 0;
        assert(views.skip(0) =~= views);
        assert(after_records(seq![], records(views)) == records(views)) by {
            if let Ok(more) = records(views) {
                assert(Seq::<StagedView>::empty() + more =~= more);
            }
        }
        while at < fields.len()
            invariant
                views == bytes::blobs(fields@),
                at <= fields@.len(),
                staged(output@) == records(views),
                after_records(staged_views(changes@), records(views.skip(at as int))) == records(
                    views,
                ),
            decreases fields.len() - at,
        {
            let ghost rest = views.skip(at as int);
            match Self::record_at(&fields, at) {
                Ok((change, count)) => {
                    let ghost before = staged_views(changes@);
                    changes.push(change);
                    assert(staged_views(changes@) =~= before + seq![change@]);
                    assert(rest.skip(count as int) =~= views.skip(at + count));
                    proof {
                        if let Ok(more) = records(views.skip(at + count)) {
                            assert(before + (seq![change@] + more) =~= staged_views(changes@) + more);
                        }
                    }
                    at = at + count;
                },
                Err(error) => return Err(error),
            }
        }
        assert(views.skip(at as int) =~= seq![]);
        assert(staged_views(changes@) + Seq::<StagedView>::empty() =~= staged_views(changes@));
        Ok(changes)
    }
}

/// Whether a change has a similarity percentage, where it has one at all.
pub open spec fn has_percentage(change: StagedView) -> bool {
    match change.kind {
        StagedKindView::Renamed { similarity, .. } => 0 <= similarity <= MAX_SIMILARITY,
        StagedKindView::Copied { similarity, .. } => 0 <= similarity <= MAX_SIMILARITY,
        _ => true,
    }
}

/// Whether all changes have similarity percentages, where they have one at all.
pub open spec fn have_percentages(changes: Seq<StagedView>) -> bool {
    forall|i: int| 0 <= i < changes.len() ==> has_percentage(#[trigger] changes[i])
}

proof fn lemma_records_have_percentages(fields: Seq<Seq<u8>>)
    ensures
        records(fields) matches Ok(changes) ==> have_percentages(changes),
    decreases fields.len(),
{
    if fields.len() > 0 {
        if let Ok((record, count)) = first_record(fields) {
            if 0 < count <= fields.len() {
                lemma_records_have_percentages(fields.skip(count));
                assert(has_percentage(record));
                if let Ok(more) = records(fields.skip(count)) {
                    assert forall|i: int| 0 <= i < more.len() + 1 implies has_percentage(
                        #[trigger] (seq![record] + more)[i],
                    ) by {
                        if i > 0 {
                            assert((seq![record] + more)[i] == more[i - 1]);
                        }
                    }
                }
            }
        }
    }
}

/// The similarity of every rename and copy that is read is a percentage.
pub proof fn lemma_similarities_are_percentages(output: Seq<u8>)
    ensures
        staged(output) matches Ok(changes) ==> have_percentages(changes),
{
    if output.len() > 0 && output.last() == 0 {
        lemma_records_have_percentages(text::split(output.drop_last(), 0u8));
    }
}

/// The status that Git writes for a kind of change.
pub open spec fn status_of(kind: StagedKindView) -> Seq<char> {
    match kind {
        StagedKindView::Added => seq!['A'],
        StagedKindView::Modified => seq!['M'],
        StagedKindView::Deleted => seq!['D'],
        StagedKindView::TypeChanged => seq!['T'],
        StagedKindView::Unmerged => seq!['U'],
        StagedKindView::Renamed { similarity, .. } => seq!['R'] + text::decimal(similarity as nat),
        StagedKindView::Copied { similarity, .. } => seq!['C'] + text::decimal(similarity as nat),
    }
}

/// The fields of the record that Git writes for a change.
pub open spec fn fields_of(change: StagedView) -> Seq<Seq<u8>> {
    let status = vstd::utf8::encode_utf8(status_of(change.kind));
    match change.kind {
        StagedKindView::Renamed { from, .. } => seq![status, from, change.path],
        StagedKindView::Copied { from, .. } => seq![status, from, change.path],
        _ => seq![status, change.path],
    }
}

/// The fields of the records that Git writes for changes.
pub open spec fn all_fields(changes: Seq<StagedView>) -> Seq<Seq<u8>>
    decreases changes.len(),
{
    if changes.len() == 0 {
        seq![]
    } else {
        fields_of(changes[0]) + all_fields(changes.skip(1))
    }
}

/// Fields, each with NUL behind it.
pub open spec fn terminated(fields: Seq<Seq<u8>>) -> Seq<u8>
    decreases fields.len(),
{
    if fields.len() == 0 {
        seq![]
    } else {
        fields[0].push(0) + terminated(fields.skip(1))
    }
}

/// Whether a path can stand in name-status output.
pub open spec fn is_writable_path(path: Seq<u8>) -> bool {
    vstd::utf8::valid_utf8(path) && !path.contains(0)
}

/// Whether a change can stand in name-status output.
pub open spec fn is_writable(change: StagedView) -> bool {
    is_writable_path(change.path) && has_percentage(change) && (match change.kind {
        StagedKindView::Renamed { from, .. } => is_writable_path(from),
        StagedKindView::Copied { from, .. } => is_writable_path(from),
        _ => true,
    })
}

/// The UTF-8 of ASCII characters other than NUL holds no NUL.
proof fn lemma_ascii_has_no_nul(chars: Seq<char>)
    requires
        forall|i: int| 0 <= i < chars.len() ==> '\u{1}' <= #[trigger] chars[i] <= '\u{7f}',
    ensures
        !vstd::utf8::encode_utf8(chars).contains(0),
    decreases chars.len(),
{
    if chars.len() > 0 {
        let rest = chars.drop_first();
        assert forall|i: int| 0 <= i < rest.len() implies '\u{1}' <= #[trigger] rest[i] <= '\u{7f}' by {
            assert(rest[i] == chars[i + 1]);
        }
        lemma_ascii_has_no_nul(rest);
        let scalar = chars[0] as u32;
        assert((scalar & 0x7F) as u8 != 0) by (bit_vector)
            requires
                1 <= scalar <= 0x7F,
        ;
        let first = vstd::utf8::encode_scalar(scalar);
        let bytes = vstd::utf8::encode_utf8(chars);
        if bytes.contains(0) {
            let i = choose|i: int| 0 <= i < bytes.len() && bytes[i] == 0;
            assert(i > 0);
            assert(vstd::utf8::encode_utf8(rest)[i - 1] == 0);
        }
    }
}

/// Fields without NUL are read back from between the NULs.
proof fn lemma_fields_are_split(fields: Seq<Seq<u8>>)
    requires
        fields.len() > 0,
        forall|i: int| 0 <= i < fields.len() ==> !(#[trigger] fields[i]).contains(0),
    ensures
        terminated(fields).len() > 0,
        terminated(fields).last() == 0,
        text::split(terminated(fields).drop_last(), 0u8) == fields,
    decreases fields.len(),
{
    let first = fields[0];
    let rest = fields.skip(1);
    let body = terminated(fields).drop_last();
    text::lemma_find(body, 0u8);
    if rest.len() == 0 {
        assert(terminated(rest) =~= seq![]);
        assert(body =~= first);
        assert(text::split(body, 0u8) =~= fields);
    } else {
        assert forall|i: int| 0 <= i < rest.len() implies !(#[trigger] rest[i]).contains(0) by {
            assert(rest[i] == fields[i + 1]);
        }
        lemma_fields_are_split(rest);
        let end = first.len() as int;
        assert(body =~= first.push(0) + terminated(rest).drop_last());
        assert(body[end] == 0);
        let found = text::find(body, 0u8);
        if found < end {
            assert(first[found] == 0);
        }
        assert(body.take(end) =~= first);
        assert(body.skip(end + 1) =~= terminated(rest).drop_last());
        assert(text::split(body, 0u8) =~= fields);
    }
}

/// The fields of a change that can stand in name-status output hold no NUL, and its record is read
/// back from them.
proof fn lemma_records_are_read_back(change: StagedView, behind: Seq<Seq<u8>>)
    requires
        is_writable(change),
    ensures
        forall|i: int|
            0 <= i < fields_of(change).len() ==> !(#[trigger] fields_of(change)[i]).contains(0),
        first_record(fields_of(change) + behind) == Ok::<_, StagedFault>(
            (change, fields_of(change).len() as int),
        ),
{
    let status = status_of(change.kind);
    let fields = fields_of(change) + behind;
    vstd::utf8::encode_utf8_valid_utf8(status);
    vstd::utf8::encode_utf8_decode_utf8(status);
    let score = match change.kind {
        StagedKindView::Renamed { similarity, .. } => similarity,
        StagedKindView::Copied { similarity, .. } => similarity,
        _ => 0,
    };
    number::lemma_decimal_digits(score as nat);
    number::lemma_decimals_are_read_back(score as nat, MAX_SIMILARITY as nat);
    lemma_ascii_has_no_nul(status);
    assert(fields[0] == vstd::utf8::encode_utf8(status));
    if change.kind is Renamed || change.kind is Copied {
        assert(status.skip(1) =~= text::decimal(score as nat));
        assert(fields[1] == fields_of(change)[1]);
        assert(fields[2] == fields_of(change)[2]);
    } else {
        assert(fields[1] == fields_of(change)[1]);
    }
}

proof fn lemma_all_records_are_read_back(changes: Seq<StagedView>)
    requires
        forall|i: int| 0 <= i < changes.len() ==> is_writable(#[trigger] changes[i]),
    ensures
        forall|i: int|
            0 <= i < all_fields(changes).len() ==> !(#[trigger] all_fields(changes)[i]).contains(0),
        records(all_fields(changes)) == Ok::<_, StagedFault>(changes),
    decreases changes.len(),
{
    if changes.len() > 0 {
        let first = changes[0];
        let rest = changes.skip(1);
        assert forall|i: int| 0 <= i < rest.len() implies is_writable(#[trigger] rest[i]) by {
            assert(rest[i] == changes[i + 1]);
        }
        lemma_all_records_are_read_back(rest);
        lemma_records_are_read_back(first, all_fields(rest));
        let own = fields_of(first);
        let fields = all_fields(changes);
        assert forall|i: int| 0 <= i < fields.len() implies !(#[trigger] fields[i]).contains(0) by {
            if i < own.len() {
                assert(fields[i] == own[i]);
            } else {
                assert(fields[i] == all_fields(rest)[i - own.len()]);
            }
        }
        assert(fields.skip(own.len() as int) =~= all_fields(rest));
        assert(seq![first] + rest =~= changes);
        assert(records(fields) == after_records(seq![first], records(all_fields(rest))));
    } else {
        assert(changes =~= seq![]);
    }
}

/// What Git writes for changes is read back as those changes.
pub proof fn lemma_written_changes_are_read_back(changes: Seq<StagedView>)
    requires
        forall|i: int| 0 <= i < changes.len() ==> is_writable(#[trigger] changes[i]),
    ensures
        staged(terminated(all_fields(changes))) == Ok::<_, StagedFault>(changes),
{
    lemma_all_records_are_read_back(changes);
    if changes.len() > 0 {
        assert(is_writable(changes[0]));
        assert(all_fields(changes).len() > 0);
        lemma_fields_are_split(all_fields(changes));
    } else {
        assert(terminated(all_fields(changes)) =~= seq![]);
        assert(changes =~= seq![]);
    }
}

/// A record whose status is none of Git's letters is refused, and so is one whose path is missing;
/// the letter alone decides the kind of a record with one path.
pub proof fn lemma_unknown_statuses_are_refused(status: Seq<char>, rest: Seq<Seq<u8>>)
    requires
        status.len() > 0,
    ensures
        ({
            let fields = seq![vstd::utf8::encode_utf8(status)] + rest;
            let letter = status[0];
            &&& !(letter == 'A' || letter == 'M' || letter == 'D' || letter == 'T' || letter == 'U'
                || letter == 'R' || letter == 'C') ==> first_record(fields) == Err::<
                (StagedView, int),
                _,
            >(StagedFault::Unsupported { status })
            &&& rest.len() == 0 && (letter == 'A' || letter == 'M' || letter == 'D' || letter
                == 'T' || letter == 'U') ==> first_record(fields) == Err::<(StagedView, int), _>(
                StagedFault::MissingPath,
            )
            &&& first_record(fields) matches Ok((change, taken)) ==> {
                &&& letter == 'A' <==> change.kind is Added
                &&& letter == 'M' <==> change.kind is Modified
                &&& letter == 'D' <==> change.kind is Deleted
                &&& letter == 'T' <==> change.kind is TypeChanged
                &&& letter == 'U' <==> change.kind is Unmerged
                &&& letter == 'R' <==> change.kind is Renamed
                &&& letter == 'C' <==> change.kind is Copied
                &&& taken == if change.kind is Renamed || change.kind is Copied {
                    3int
                } else {
                    2
                }
                &&& change.path == fields[taken - 1]
            }
        }),
{
    let fields = seq![vstd::utf8::encode_utf8(status)] + rest;
    assert(fields[0] == vstd::utf8::encode_utf8(status));
    vstd::utf8::encode_utf8_valid_utf8(status);
    vstd::utf8::encode_utf8_decode_utf8(status);
}

} // verus!
