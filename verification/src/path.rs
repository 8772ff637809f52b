//! Repository-relative paths.

use vstd::prelude::*;

use crate::bytes::{self, bytes_between, find_byte, same_blobs, same_bytes};
use crate::text;

verus! {

/// The byte between the components of a path.
pub const SLASH: u8 = 0x2f;

/// The byte before a file extension.
pub const DOT: u8 = 0x2e;

/// A path relative to the repository root, as the bytes that Git stores.
///
/// Two paths are the same where their components are: `a//b` and `a/./b` name `a/b`.
#[derive(Debug, Clone, PartialEq, Eq)]
pub struct RepoPath {
    /// Path bytes; components are separated by `/`.
    pub bytes: Vec<u8>,
}

impl View for RepoPath {
    type V = Seq<u8>;

    open spec fn view(&self) -> Seq<u8> {
        self.bytes@
    }
}

/// Whether a part between slashes counts as a component: empty parts never do, and `.` only at
/// the start of a path.
pub open spec fn counts(part: Seq<u8>, first: bool) -> bool {
    part.len() > 0 && (first || part != seq![DOT])
}

/// The parts that count as components; `first` tells whether the path starts with them.
pub open spec fn counted(parts: Seq<Seq<u8>>, first: bool) -> Seq<Seq<u8>>
    decreases parts.len(),
{
    if parts.len() == 0 {
        seq![]
    } else {
        (if counts(parts[0], first) {
            seq![parts[0]]
        } else {
            seq![]
        }) + counted(parts.skip(1), false)
    }
}

/// The components of a path; a leading slash is a component of its own.
pub open spec fn components(path: Seq<u8>) -> Seq<Seq<u8>> {
    (if path.len() > 0 && path[0] == SLASH {
        seq![seq![SLASH]]
    } else {
        seq![]
    }) + counted(text::split(path, SLASH), true)
}

/// Whether two paths name the same file.
pub open spec fn same(left: Seq<u8>, right: Seq<u8>) -> bool {
    components(left) == components(right)
}

/// Whether `path` is `root` or lies below the directory `root`. An empty `root` covers nothing.
pub open spec fn covers(root: Seq<u8>, path: Seq<u8>) -> bool {
    components(root).len() > 0 && text::starts_with(components(path), components(root))
}

/// The last component of a path, unless that is `/`, `.` or `..`.
pub open spec fn file_name(path: Seq<u8>) -> Option<Seq<u8>> {
    let names = components(path);
    if names.len() > 0 && names.last() != seq![SLASH] && names.last() != seq![DOT] && names.last()
        != seq![DOT, DOT] {
        Some(names.last())
    } else {
        None
    }
}

/// What follows the last dot of the file name, unless that dot starts the name.
pub open spec fn extension(path: Seq<u8>) -> Option<Seq<u8>> {
    match file_name(path) {
        Some(name) => {
            let dot = text::find_last(name, DOT);
            if dot > 0 {
                Some(name.skip(dot + 1))
            } else {
                None
            }
        },
        None => None,
    }
}

impl RepoPath {
    /// The path with the given UTF-8 text.
    pub fn from_text(text: &str) -> (path: RepoPath)
        ensures
            path@ == vstd::utf8::encode_utf8(text@),
    {
        let bytes = text.as_bytes();
        let path = RepoPath { bytes: bytes_between(bytes, 0, bytes.len()) };
        assert(path@ =~= bytes@);
        path
    }

    /// An equal path.
    pub fn copied(&self) -> (path: RepoPath)
        ensures
            path@ == self@,
    {
        let path = RepoPath { bytes: bytes_between(&self.bytes, 0, self.bytes.len()) };
        assert(path@ =~= self@);
        path
    }

    /// The path as text; bytes that are not UTF-8 are replaced.
    pub fn display(&self) -> (shown: String)
        ensures
            shown@ == text::lossy_utf8(self@),
            vstd::utf8::valid_utf8(self@) ==> shown@ == vstd::utf8::decode_utf8(self@),
    {
        text::lossy_text(&self.bytes)
    }

    /// The components of the path.
    pub fn components(&self) -> (result: Vec<Vec<u8>>)
        ensures
            bytes::blobs(result@) == components(self@),
    {
        let bytes = &self.bytes;
        let mut result: Vec<Vec<u8>> = Vec::new();
        if bytes.len() > 0 && bytes[0] == SLASH {
            let slash: Vec<u8> = vec![SLASH];
            proof {
                bytes::lemma_blobs_push(result@, slash);
                assert(slash@ =~= seq![SLASH]);
            }
            result.push(slash);
        }
        let mut start: usize = 0;
        let mut first: bool = true;
        let mut done: bool = false;
        assert(self@.skip(0) =~= self@);
        assert(bytes::blobs(result@) + counted(text::split(self@, SLASH), true) =~= components(self@));
        while !done
            invariant
                bytes@ == self@,
                start <= bytes@.len(),
                !done ==> bytes::blobs(result@) + counted(text::split(self@.skip(start as int), SLASH), first)
                    == components(self@),
                done ==> bytes::blobs(result@) == components(self@),
            decreases bytes@.len() - start + (if done {
                    0int
                } else {
                    1int
                }),
        {
            let ghost rest = self@.skip(start as int);
            let ghost before = bytes::blobs(result@);
            let ghost was_first = first;
            proof {
                text::lemma_find(rest, SLASH);
            }
            let end = find_byte(bytes, start, SLASH);
            let part = bytes_between(bytes, start, end);
            let ghost name = part@;
            proof {
                assert(name =~= rest.take(end - start));
                bytes::lemma_blobs_push(result@, part);
                let parts = text::split(rest, SLASH);
                assert(parts[0] =~= name);
                if end < bytes@.len() {
                    assert(rest.skip(end - start + 1) =~= self@.skip(end + 1));
                    assert(parts.skip(1) =~= text::split(self@.skip(end + 1), SLASH));
                } else {
                    assert(parts.skip(1) =~= seq![]);
                    assert(counted(parts.skip(1), false) =~= seq![]);
                }
            }
            let dot: bool = part.len() == 1 && part[0] == DOT;
            assert(dot == (name =~= seq![DOT]));
            if part.len() > 0 && (first || !dot) {
                result.push(part);
            }
            first = false;
            if end < bytes.len() {
                start = end + 1;
                assert(bytes::blobs(result@) + counted(text::split(self@.skip(start as int), SLASH), false)
                    =~= before + counted(text::split(rest, SLASH), was_first));
            } else {
                done = true;
                assert(bytes::blobs(result@) =~= before + counted(text::split(rest, SLASH), was_first));
            }
        }
        result
    }

    /// Whether two paths name the same file.
    pub fn same_as(&self, other: &RepoPath) -> (result: bool)
        ensures
            result == same(self@, other@),
    {
        same_blobs(&self.components(), &other.components())
    }

    /// Whether `path` is this path or lies below it as a directory.
    pub fn covers(&self, path: &RepoPath) -> (result: bool)
        ensures
            result == covers(self@, path@),
    {
        let root = self.components();
        let names = path.components();
        if root.len() == 0 || root.len() > names.len() {
            return false;
        }
        for i in 0..root.len()
            invariant
                bytes::blobs(root@) == components(self@),
                bytes::blobs(names@) == components(path@),
                0 < root@.len() <= names@.len(),
                forall|j: int| 0 <= j < i ==> root@[j]@ == names@[j]@,
        {
            if !same_bytes(&root[i], &names[i]) {
                assert(bytes::blobs(names@).take(root@.len() as int)[i as int] != bytes::blobs(root@)[i as int]);
                return false;
            }
        }
        assert(bytes::blobs(names@).take(root@.len() as int) =~= bytes::blobs(root@));
        true
    }

    /// The extension of the file name, without its dot.
    pub fn extension(&self) -> (result: Option<Vec<u8>>)
        ensures
            match result {
                Some(found) => extension(self@) == Some(found@),
                None => extension(self@) is None,
            },
    {
        let names = self.components();
        if names.len() == 0 {
            return None;
        }
        let name = &names[names.len() - 1];
        assert(name@ == components(self@).last());
        let slash: Vec<u8> = vec![SLASH];
        let current: Vec<u8> = vec![DOT];
        let parent: Vec<u8> = vec![DOT, DOT];
        assert(slash@ =~= seq![SLASH]);
        assert(current@ =~= seq![DOT]);
        assert(parent@ =~= seq![DOT, DOT]);
        if same_bytes(name, &slash) || same_bytes(name, &current) || same_bytes(
            name,
            &parent,
        ) {
            return None;
        }
        let mut end: usize = name.len();
        assert(name@.take(end as int) =~= name@);
        while end > 0 && name[end - 1] != DOT
            invariant
                end <= name@.len(),
                text::find_last(name@.take(end as int), DOT) == text::find_last(name@, DOT),
            decreases end,
        {
            assert(name@.take(end as int).drop_last() =~= name@.take(end - 1));
            end = end - 1;
        }
        if end <= 1 {
            None
        } else {
            let found = bytes_between(name, end, name.len());
            assert(found@ =~= name@.skip(end as int));
            Some(found)
        }
    }
}

proof fn lemma_split_concat(left: Seq<u8>, right: Seq<u8>)
    ensures
        text::split(left.push(SLASH) + right, SLASH) == text::split(left, SLASH) + text::split(
            right,
            SLASH,
        ),
    decreases left.len(),
{
    let whole = left.push(SLASH) + right;
    text::lemma_find(left, SLASH);
    text::lemma_find(whole, SLASH);
    let end = text::find(left, SLASH);
    let found = text::find(whole, SLASH);
    if end < left.len() {
        assert(whole[end] == SLASH);
        assert(found <= end);
        assert(left[found] == SLASH);
        assert(found == end);
        let rest = left.skip(end + 1);
        lemma_split_concat(rest, right);
        assert(whole.skip(end + 1) =~= rest.push(SLASH) + right);
        assert(whole.take(end) =~= left.take(end));
        assert(text::split(whole, SLASH) =~= text::split(left, SLASH) + text::split(right, SLASH));
    } else {
        assert(whole[left.len() as int] == SLASH);
        if found < left.len() {
            assert(left[found] == SLASH);
        }
        assert(whole.take(found) =~= left);
        assert(whole.skip(found + 1) =~= right);
        assert(text::split(whole, SLASH) =~= text::split(left, SLASH) + text::split(right, SLASH));
    }
}

proof fn lemma_counted_concat(left: Seq<Seq<u8>>, right: Seq<Seq<u8>>, first: bool)
    requires
        left.len() > 0,
    ensures
        counted(left + right, first) == counted(left, first) + counted(right, false),
    decreases left.len(),
{
    assert((left + right)[0] == left[0]);
    assert((left + right).skip(1) =~= left.skip(1) + right);
    if left.len() > 1 {
        lemma_counted_concat(left.skip(1), right, false);
        assert(counted(left + right, first) =~= counted(left, first) + counted(right, false));
    } else {
        assert(left.skip(1) + right =~= right);
        assert(counted(left.skip(1), false) =~= seq![]);
        assert(counted(left + right, first) =~= counted(left, first) + counted(right, false));
    }
}

/// A directory covers everything below it: whatever is appended after a slash to a path that has a
/// component is covered by that path.
pub proof fn lemma_covers_everything_below(directory: Seq<u8>, below: Seq<u8>)
    requires
        components(directory).len() > 0,
    ensures
        covers(directory, directory.push(SLASH) + below),
{
    let whole = directory.push(SLASH) + below;
    lemma_split_concat(directory, below);
    lemma_counted_concat(text::split(directory, SLASH), text::split(below, SLASH), true);
    if directory.len() == 0 {
        assert(text::split(directory, SLASH) =~= seq![directory]);
        assert(counted(text::split(directory, SLASH).skip(1), false) =~= seq![]);
        assert(components(directory) =~= seq![]);
    }
    assert(whole[0] == directory[0]);
    assert(components(whole) =~= components(directory) + counted(text::split(below, SLASH), false));
    assert(components(whole).take(components(directory).len() as int) =~= components(directory));
}

/// Every path that has a component covers itself.
pub proof fn lemma_covers_itself(path: Seq<u8>)
    requires
        components(path).len() > 0,
    ensures
        covers(path, path),
{
    assert(components(path).take(components(path).len() as int) =~= components(path));
}

/// Whether a path is one that Git stores: names between single slashes, none of them a dot.
pub open spec fn is_plain(path: Seq<u8>) -> bool {
    forall|i: int|
        0 <= i < text::split(path, SLASH).len() ==> (#[trigger] text::split(path, SLASH)[i]).len()
            > 0 && text::split(path, SLASH)[i] != seq![DOT]
}

proof fn lemma_all_parts_count(parts: Seq<Seq<u8>>, first: bool)
    requires
        forall|i: int| 0 <= i < parts.len() ==> (#[trigger] parts[i]).len() > 0 && parts[i]
            != seq![DOT],
    ensures
        counted(parts, first) == parts,
    decreases parts.len(),
{
    if parts.len() > 0 {
        let rest = parts.skip(1);
        assert forall|i: int| 0 <= i < rest.len() implies (#[trigger] rest[i]).len() > 0 && rest[i]
            != seq![DOT] by {
            assert(rest[i] == parts[i + 1]);
        }
        lemma_all_parts_count(rest, false);
        assert(parts[0].len() > 0);
        assert(seq![parts[0]] + rest =~= parts);
    } else {
        assert(counted(parts, first) =~= parts);
    }
}

proof fn lemma_plain_components(path: Seq<u8>)
    requires
        is_plain(path),
    ensures
        components(path) == text::split(path, SLASH),
{
    lemma_all_parts_count(text::split(path, SLASH), true);
    if path.len() > 0 && path[0] == SLASH {
        assert(path.take(0) =~= seq![]);
        assert(text::split(path, SLASH)[0].len() == 0);
    }
    assert(components(path) =~= text::split(path, SLASH));
}

proof fn lemma_split_has_parts(path: Seq<u8>)
    ensures
        text::split(path, SLASH).len() > 0,
{
}

proof fn lemma_split_prefix(root: Seq<u8>, path: Seq<u8>)
    requires
        text::starts_with(text::split(path, SLASH), text::split(root, SLASH)),
    ensures
        path == root || text::starts_with(path, root.push(SLASH)),
    decreases root.len(),
{
    let parts = text::split(path, SLASH);
    let wanted = text::split(root, SLASH);
    text::lemma_find(root, SLASH);
    text::lemma_find(path, SLASH);
    let end = text::find(root, SLASH);
    let found = text::find(path, SLASH);
    assert(parts.take(wanted.len() as int)[0] == wanted[0]);
    assert(parts[0] == wanted[0]);
    if end < root.len() {
        let rest = root.skip(end + 1);
        lemma_split_has_parts(rest);
        assert(parts.len() >= 2);
        assert(found < path.len());
        assert(parts[0] == path.take(found));
        assert(found == end);
        let behind = path.skip(found + 1);
        assert(text::split(behind, SLASH) =~= parts.skip(1));
        assert(text::split(rest, SLASH) =~= wanted.skip(1));
        assert(text::split(behind, SLASH).take(text::split(rest, SLASH).len() as int)
            =~= parts.take(wanted.len() as int).skip(1));
        lemma_split_prefix(rest, behind);
        assert(root =~= root.take(end).push(SLASH) + rest);
        assert(path =~= root.take(end).push(SLASH) + behind);
        if behind != rest {
            assert(behind.take(rest.len() as int + 1) =~= rest.push(SLASH));
            assert(path.take(root.len() as int + 1) =~= root.push(SLASH));
        }
    } else if found < path.len() {
        assert(path.take(found) == root);
        assert(path.take(root.len() as int + 1) =~= root.push(SLASH));
    }
}

/// A plain path covers exactly itself and what is below it: names that only start alike are not
/// covered.
pub proof fn lemma_plain_paths_cover_only_what_is_below(root: Seq<u8>, path: Seq<u8>)
    requires
        is_plain(root),
        is_plain(path),
    ensures
        covers(root, path) <==> (path == root || text::starts_with(path, root.push(SLASH))),
{
    lemma_plain_components(root);
    lemma_plain_components(path);
    lemma_split_has_parts(root);
    if covers(root, path) {
        lemma_split_prefix(root, path);
    }
    if path == root {
        lemma_covers_itself(root);
    } else if text::starts_with(path, root.push(SLASH)) {
        let below = path.skip(root.len() as int + 1);
        assert(path =~= root.push(SLASH) + below);
        lemma_covers_everything_below(root, below);
    }
}

proof fn lemma_find_last(name: Seq<u8>, at: int)
    requires
        0 <= at < name.len(),
        name[at] == DOT,
        forall|i: int| at < i < name.len() ==> name[i] != DOT,
    ensures
        text::find_last(name, DOT) == at,
    decreases name.len(),
{
    if name.last() != DOT {
        lemma_find_last(name.drop_last(), at);
    }
}

proof fn lemma_finds_none(name: Seq<u8>)
    requires
        !name.contains(DOT),
    ensures
        text::find_last(name, DOT) == -1,
    decreases name.len(),
{
    if name.len() > 0 {
        assert(name[name.len() - 1] == name.last());
        assert forall|i: int| 0 <= i < name.drop_last().len() implies name.drop_last()[i]
            != DOT by {
            assert(name[i] == name.drop_last()[i]);
        }
        lemma_finds_none(name.drop_last());
    }
}

/// The extension is what follows the last dot of the file name, unless nothing stands before that
/// dot; a name without a dot has none.
pub proof fn lemma_extensions_follow_the_last_dot(path: Seq<u8>, stem: Seq<u8>, ending: Seq<u8>)
    requires
        !ending.contains(DOT),
    ensures
        file_name(path) == Some(stem.push(DOT) + ending) && stem.len() > 0 ==> extension(path)
            == Some(ending),
        file_name(path) == Some(seq![DOT] + ending) ==> extension(path) is None,
        file_name(path) == Some(ending) ==> extension(path) is None,
{
    let name = stem.push(DOT) + ending;
    assert forall|i: int| stem.len() < i < name.len() implies name[i] != DOT by {
        assert(name[i] == ending[i - stem.len() - 1]);
    }
    lemma_find_last(name, stem.len() as int);
    assert(name.skip(stem.len() as int + 1) =~= ending);
    let hidden = seq![DOT] + ending;
    assert forall|i: int| 0 < i < hidden.len() implies hidden[i] != DOT by {
        assert(hidden[i] == ending[i - 1]);
    }
    lemma_find_last(hidden, 0);
    lemma_finds_none(ending);
}

} // verus!
