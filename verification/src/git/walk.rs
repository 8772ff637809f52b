//! The walk over a working tree: what to read next, and which files it found.

use vstd::prelude::*;

use crate::bytes;
use crate::order;
use crate::path::{RepoPath, SLASH};

verus! {

/// What the walk needs to know next.
#[derive(Debug, Clone, PartialEq, Eq)]
pub enum WalkStep {
    /// The names of the entries in a directory.
    List {
        /// The directory, relative to the repository root.
        directory: RepoPath,
    },
    /// What an entry is.
    Inspect {
        /// The entry, relative to the repository root.
        path: RepoPath,
    },
    /// Nothing: the walk is over.
    Done,
}

/// What an entry of the working tree is.
#[derive(Debug, Clone, Copy, PartialEq, Eq, Structural)]
pub enum EntryKind {
    /// Git ignores it.
    Ignored,
    /// A directory.
    Directory,
    /// A file, or a symbolic link, which is not followed.
    File,
}

/// A walk over the files visible in the working tree after applying Git ignore rules.
pub struct WorkingTreeWalk {
    /// The directory whose entries are listed next.
    pub listing: Option<RepoPath>,
    /// The entries to inspect, the next one last.
    pub pending: Vec<RepoPath>,
    /// The files found.
    pub files: Vec<RepoPath>,
}

/// What a [`WorkingTreeWalk`] holds.
pub ghost struct WalkView {
    pub listing: Option<Seq<u8>>,
    pub pending: Seq<Seq<u8>>,
    pub files: Seq<Seq<u8>>,
}

impl View for WorkingTreeWalk {
    type V = WalkView;

    open spec fn view(&self) -> WalkView {
        WalkView {
            listing: match self.listing {
                Some(directory) => Some(directory@),
                None => None,
            },
            pending: order::path_bytes(self.pending@),
            files: order::path_bytes(self.files@),
        }
    }
}

/// The name of the directory that holds Git metadata: `.git`.
pub open spec fn metadata_name() -> Seq<u8> {
    seq![46, 103, 105, 116]
}

/// The path of an entry of a directory.
pub open spec fn joined(directory: Seq<u8>, name: Seq<u8>) -> Seq<u8> {
    if directory.len() == 0 {
        name
    } else {
        directory.push(SLASH) + name
    }
}

/// The paths of the entries of a directory, without Git metadata.
pub open spec fn visible_children(directory: Seq<u8>, names: Seq<Seq<u8>>) -> Seq<Seq<u8>>
    decreases names.len(),
{
    if names.len() == 0 {
        seq![]
    } else {
        let before = visible_children(directory, names.drop_last());
        if names.last() == metadata_name() {
            before
        } else {
            before.push(joined(directory, names.last()))
        }
    }
}

/// A walk that starts at the repository root.
pub open spec fn started() -> WalkView {
    WalkView { listing: Some(seq![]), pending: seq![], files: seq![] }
}

/// A walk after the names of the entries in the listed directory: all but Git metadata are
/// inspected, in order, before anything that was pending.
pub open spec fn takes_names(before: WalkView, names: Seq<Seq<u8>>, after: WalkView) -> bool {
    &&& after.files == before.files
    &&& after.listing is None
    &&& match before.listing {
        Some(directory) => {
            let added = after.pending.skip(before.pending.len() as int);
            &&& before.pending.len() <= after.pending.len()
            &&& after.pending.take(before.pending.len() as int) == before.pending
            &&& order::is_sorted(added.reverse())
            &&& added.reverse().to_multiset() == visible_children(directory, names).to_multiset()
        },
        None => after.pending == before.pending,
    }
}

/// A walk after what the next pending entry is: an ignored one is left out, a directory is listed
/// next, and anything else is a file.
pub open spec fn after_inspecting(before: WalkView, kind: EntryKind) -> WalkView {
    let path = before.pending.last();
    let pending = before.pending.drop_last();
    match kind {
        EntryKind::Ignored => WalkView { pending, ..before },
        EntryKind::Directory => WalkView { listing: Some(path), pending, ..before },
        EntryKind::File => WalkView { pending, files: before.files.push(path), ..before },
    }
}

/// Whether files are those that a walk found, in order.
pub open spec fn are_found(walk: WalkView, files: Seq<Seq<u8>>) -> bool {
    order::is_sorted(files) && files.to_multiset() == walk.files.to_multiset()
}

/// The path of an entry of a directory.
pub fn join(directory: &RepoPath, name: &[u8]) -> (path: RepoPath)
    ensures
        path@ == joined(directory@, name@),
{
    let mut joined_bytes: Vec<u8> = Vec::new();
    if directory.bytes.len() > 0 {
        bytes::append_bytes(&mut joined_bytes, &directory.bytes);
        joined_bytes.push(SLASH);
    }
    bytes::append_bytes(&mut joined_bytes, name);
    let path = RepoPath { bytes: joined_bytes };
    assert(path@ =~= joined(directory@, name@));
    path
}

impl WorkingTreeWalk {
    /// A walk that starts at the repository root.
    pub fn new() -> (walk: WorkingTreeWalk)
        ensures
            walk@ == started(),
    {
        let root = RepoPath { bytes: Vec::new() };
        let walk = WorkingTreeWalk { listing: Some(root), pending: Vec::new(), files: Vec::new() };
        assert(root@ =~= Seq::<u8>::empty());
        assert(walk@.pending =~= started().pending);
        assert(walk@.files =~= started().files);
        walk
    }

    /// What the walk needs to know next.
    pub fn step(&self) -> (step: WalkStep)
        ensures
            match step {
                WalkStep::List { directory } => self@.listing == Some(directory@),
                WalkStep::Inspect { path } => self@.listing is None && self@.pending.len() > 0
                    && self@.pending.last() == path@,
                WalkStep::Done => self@.listing is None && self@.pending.len() == 0,
            },
    {
        match &self.listing {
            Some(directory) => WalkStep::List { directory: directory.copied() },
            None => {
                if self.pending.len() > 0 {
                    WalkStep::Inspect { path: self.pending[self.pending.len() - 1].copied() }
                } else {
                    WalkStep::Done
                }
            },
        }
    }

    /// Continue with the names of the entries in the listed directory: all but Git metadata are
    /// inspected, in order, before anything that was pending.
    pub fn listed(&mut self, names: &[Vec<u8>])
        ensures
            takes_names(old(self)@, bytes::blobs(names@), final(self)@),
    {
        let directory = match &self.listing {
            Some(directory) => directory.copied(),
            None => return ,
        };
        let ghost views = bytes::blobs(names@);
        let ghost before = order::path_bytes(self.pending@);
        let metadata: Vec<u8> = vec![46, 103, 105, 116];
        assert(metadata@ =~= metadata_name());
        let mut children: Vec<RepoPath> = Vec::new();
        assert(order::path_bytes(children@) =~= seq![]);
        for i in 0..names.len()
            invariant
                views == bytes::blobs(names@),
                metadata@ == metadata_name(),
                order::path_bytes(children@) == visible_children(directory@, views.take(i as int)),
        {
            assert(views.take(i + 1).drop_last() =~= views.take(i as int));
            assert(views.take(i + 1).last() == names@[i as int]@);
            if !bytes::same_bytes(&names[i], &metadata) {
                let child = join(&directory, &names[i]);
                let ghost earlier = order::path_bytes(children@);
                children.push(child);
                assert(order::path_bytes(children@) =~= earlier.push(child@));
            }
        }
        assert(views.take(views.len() as int) =~= views);
        let sorted = order::sort_paths(children);
        let ghost ordered = order::path_bytes(sorted@);
        assert(order::path_bytes(self.pending@) =~= before + ordered.skip(
            ordered.len() as int,
        ).reverse());
        let mut left: usize = sorted.len();
        while left > 0
            invariant
                left <= sorted@.len(),
                self.files@ == old(self).files@,
                ordered == order::path_bytes(sorted@),
                order::path_bytes(self.pending@) == before + ordered.skip(left as int).reverse(),
            decreases left,
        {
            left = left - 1;
            let ghost earlier = order::path_bytes(self.pending@);
            let child = sorted[left].copied();
            self.pending.push(child);
            assert(order::path_bytes(self.pending@) =~= earlier.push(child@));
            assert(ordered.skip(left as int).reverse() =~= ordered.skip(left + 1).reverse().push(
                ordered[left as int],
            ));
            assert(order::path_bytes(self.pending@) =~= before + ordered.skip(left as int).reverse());
        }
        proof {
            let after = order::path_bytes(self.pending@);
            assert(ordered.skip(0) =~= ordered);
            assert(after.skip(before.len() as int) =~= ordered.reverse());
            assert(ordered.reverse().reverse() =~= ordered);
            assert(after.take(before.len() as int) =~= before);
        }
        self.listing = None;
    }

    /// Continue with what the next pending entry is: an ignored one is left out, a directory is
    /// listed next, and anything else is a file.
    pub fn inspected(&mut self, kind: EntryKind)
        requires
            old(self)@.listing is None,
            old(self)@.pending.len() > 0,
        ensures
            final(self)@ == after_inspecting(old(self)@, kind),
    {
        let next = self.pending.pop();
        if let Some(path) = next {
            match kind {
                EntryKind::Ignored => {},
                EntryKind::Directory => {
                    self.listing = Some(path);
                },
                EntryKind::File => {
                    self.files.push(path);
                },
            }
        }
        assert(self@.pending =~= after_inspecting(old(self)@, kind).pending);
        assert(self@.files =~= after_inspecting(old(self)@, kind).files);
    }

    /// The files found, in order.
    pub fn finish(self) -> (files: Vec<RepoPath>)
        ensures
            are_found(self@, order::path_bytes(files@)),
    {
        order::sort_paths(self.files)
    }
}

/// An entry of a directory is visited if and only if it is not Git metadata.
pub proof fn lemma_all_but_metadata_is_visited(directory: Seq<u8>, names: Seq<Seq<u8>>)
    ensures
        forall|path: Seq<u8>| #[trigger]
            visible_children(directory, names).contains(path) <==> exists|i: int|
                0 <= i < names.len() && #[trigger] names[i] != metadata_name() && path == joined(
                    directory,
                    names[i],
                ),
    decreases names.len(),
{
    if names.len() > 0 {
        let rest = names.drop_last();
        lemma_all_but_metadata_is_visited(directory, rest);
        let all = visible_children(directory, names);
        let before = visible_children(directory, rest);
        assert forall|path: Seq<u8>| #[trigger]
            all.contains(path) implies exists|i: int|
            0 <= i < names.len() && #[trigger] names[i] != metadata_name() && path == joined(
                directory,
                names[i],
            ) by {
            let at = choose|at: int| 0 <= at < all.len() && all[at] == path;
            if at < before.len() {
                assert(before[at] == path);
                assert(before.contains(path));
                let i = choose|i: int|
                    0 <= i < rest.len() && #[trigger] rest[i] != metadata_name() && path == joined(
                        directory,
                        rest[i],
                    );
                assert(names[i] == rest[i]);
            } else {
                assert(names[names.len() - 1] == names.last());
            }
        }
        assert forall|i: int|
            0 <= i < names.len() && #[trigger] names[i] != metadata_name() implies all.contains(
            joined(directory, names[i]),
        ) by {
            if i < rest.len() {
                assert(rest[i] == names[i]);
                assert(before.contains(joined(directory, rest[i])));
                let at = choose|at: int|
                    0 <= at < before.len() && before[at] == joined(directory, rest[i]);
                assert(all[at] == before[at]);
            } else {
                assert(all[all.len() - 1] == joined(directory, names[i]));
            }
        }
    }
}

} // verus!
