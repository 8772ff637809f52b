//! Which files of a working tree a walk finds.

use vstd::prelude::*;

use crate::git::walk;
use crate::git::walk::{EntryKind, WalkView};
use crate::order;
use crate::path::SLASH;

verus! {

/// A working tree: the names of the entries in each directory, and what each entry is.
pub ghost struct TreeView {
    pub names: spec_fn(Seq<u8>) -> Seq<Seq<u8>>,
    pub kind: spec_fn(Seq<u8>) -> EntryKind,
}

/// The path that names lead to from the repository root.
pub open spec fn path_of(names: Seq<Seq<u8>>) -> Seq<u8>
    decreases names.len(),
{
    if names.len() == 0 {
        seq![]
    } else {
        walk::joined(path_of(names.drop_last()), names.last())
    }
}

/// Whether names lead to an entry: each is that of an entry in the directory before it, none is
/// that of Git metadata, and all entries but the last are directories that Git does not ignore.
pub open spec fn is_entry(tree: TreeView, names: Seq<Seq<u8>>) -> bool
    decreases names.len(),
{
    &&& names.len() > 0
    &&& names.last() != walk::metadata_name()
    &&& (tree.names)(path_of(names.drop_last())).contains(names.last())
    &&& names.len() == 1 || (is_entry(tree, names.drop_last()) && (tree.kind)(
        path_of(names.drop_last()),
    ) == EntryKind::Directory)
}

/// Whether names lead to an entry that is neither a directory nor ignored.
pub open spec fn is_visible_chain(tree: TreeView, names: Seq<Seq<u8>>) -> bool {
    is_entry(tree, names) && (tree.kind)(path_of(names)) == EntryKind::File
}

/// Whether a path is that of a visible file: an entry that is no directory, below no Git metadata,
/// where Git ignores neither it nor a directory above it.
pub open spec fn is_visible(tree: TreeView, path: Seq<u8>) -> bool {
    exists|names: Seq<Seq<u8>>|
        #![trigger is_visible_chain(tree, names)]
        is_visible_chain(tree, names) && path_of(names) == path
}

/// Whether a name can be that of an entry.
pub open spec fn is_proper_name(name: Seq<u8>) -> bool {
    name.len() > 0 && !name.contains(SLASH)
}

/// Whether every directory has each entry once, under a name that is not empty and has no slash.
pub open spec fn is_proper(tree: TreeView) -> bool {
    forall|directory: Seq<u8>|
        #![trigger (tree.names)(directory)]
        (tree.names)(directory).no_duplicates() && forall|i: int|
            0 <= i < (tree.names)(directory).len() ==> is_proper_name(
                #[trigger] (tree.names)(directory)[i],
            )
}

/// One step of a walk over a tree.
pub open spec fn steps(tree: TreeView, before: WalkView, after: WalkView) -> bool {
    match before.listing {
        Some(directory) => walk::takes_names(before, (tree.names)(directory), after),
        None => before.pending.len() > 0 && after == walk::after_inspecting(
            before,
            (tree.kind)(before.pending.last()),
        ),
    }
}

/// Whether nothing is left of a walk.
pub open spec fn is_over(walk: WalkView) -> bool {
    walk.listing is None && walk.pending.len() == 0
}

/// Whether states are those of a walk over a tree, from its start until it is over.
pub open spec fn is_whole_walk(tree: TreeView, states: Seq<WalkView>) -> bool {
    &&& states.len() > 0
    &&& states[0] == walk::started()
    &&& forall|i: int, j: int|
        0 <= i && j == i + 1 && j < states.len() ==> steps(
            tree,
            #[trigger] states[i],
            #[trigger] states[j],
        )
    &&& is_over(states.last())
}

/// Whether names lead to a path that is pending.
pub open spec fn leads_to_pending(walk: WalkView, names: Seq<Seq<u8>>) -> bool {
    names.len() > 0 && walk.pending.contains(path_of(names))
}

/// Whether a walk is still to find what names lead to: it holds a path on the way.
pub open spec fn is_ahead(walk: WalkView, names: Seq<Seq<u8>>) -> bool {
    exists|count: int|
        0 <= count <= names.len() && (leads_to_pending(walk, #[trigger] names.take(count)) || (count
            < names.len() && walk.listing == Some(path_of(names.take(count)))))
}

/// Whether a path is that of a directory that is walked.
pub open spec fn is_walked(tree: TreeView, directory: Seq<u8>) -> bool {
    exists|names: Seq<Seq<u8>>|
        #![trigger path_of(names)]
        path_of(names) == directory && (names.len() == 0 || (is_entry(tree, names) && (tree.kind)(
            directory,
        ) == EntryKind::Directory))
}

/// Whether a path is that of an entry.
pub open spec fn is_entry_path(tree: TreeView, path: Seq<u8>) -> bool {
    exists|names: Seq<Seq<u8>>| #[trigger] is_entry(tree, names) && path_of(names) == path
}

/// What holds of a walk in every state: it holds only entries, has found only visible files, and
/// every visible file is found or ahead.
pub open spec fn is_on_course(tree: TreeView, walk: WalkView) -> bool {
    &&& walk.listing matches Some(directory) ==> is_walked(tree, directory)
    &&& forall|i: int|
        0 <= i < walk.pending.len() ==> is_entry_path(tree, #[trigger] walk.pending[i])
    &&& forall|i: int| 0 <= i < walk.files.len() ==> is_visible(tree, #[trigger] walk.files[i])
    &&& forall|names: Seq<Seq<u8>>| #[trigger]
        is_visible_chain(tree, names) ==> walk.files.contains(path_of(names)) || is_ahead(
            walk,
            names,
        )
}

/// The first names on the way to an entry lead to an entry, which is a directory unless they are
/// all.
proof fn lemma_first_names(tree: TreeView, names: Seq<Seq<u8>>, count: int)
    requires
        is_entry(tree, names),
        0 < count <= names.len(),
    ensures
        is_entry(tree, names.take(count)),
        count < names.len() ==> (tree.kind)(path_of(names.take(count))) == EntryKind::Directory,
    decreases names.len(),
{
    if count < names.len() {
        let rest = names.drop_last();
        assert(rest.take(count) =~= names.take(count));
        if count < rest.len() {
            lemma_first_names(tree, rest, count);
        } else {
            assert(rest.take(count) =~= rest);
        }
    } else {
        assert(names.take(count) =~= names);
    }
}

/// What is added when a directory is listed.
proof fn lemma_added(before: WalkView, names: Seq<Seq<u8>>, after: WalkView)
    requires
        before.listing is Some,
        walk::takes_names(before, names, after),
    ensures
        forall|path: Seq<u8>| #[trigger]
            after.pending.contains(path) <==> before.pending.contains(path)
                || walk::visible_children(before.listing->0, names).contains(path),
{
    let directory = before.listing->0;
    let children = walk::visible_children(directory, names);
    let added = after.pending.skip(before.pending.len() as int);
    let first = after.pending.take(before.pending.len() as int);
    assert(after.pending =~= first + added);
    assert forall|path: Seq<u8>| #[trigger] after.pending.contains(path) <==> before.pending.contains(
        path,
    ) || children.contains(path) by {
        added.reverse().to_multiset_ensures();
        children.to_multiset_ensures();
        assert(added.reverse().to_multiset().count(path) == children.to_multiset().count(path));
        assert(added.reverse().contains(path) <==> children.contains(path));
        if after.pending.contains(path) {
            let i = choose|i: int| 0 <= i < after.pending.len() && after.pending[i] == path;
            if i < first.len() {
                assert(before.pending[i] == path);
            } else {
                assert(added[i - first.len()] == path);
                assert(added.reverse()[added.len() - 1 - (i - first.len())] == path);
            }
        }
        if before.pending.contains(path) {
            let i = choose|i: int| 0 <= i < before.pending.len() && before.pending[i] == path;
            assert(first[i] == path);
            assert(after.pending[i] == path);
        }
        if added.reverse().contains(path) {
            let i = choose|i: int| 0 <= i < added.len() && added.reverse()[i] == path;
            assert(added[added.len() - 1 - i] == path);
            assert(after.pending[first.len() + (added.len() - 1 - i)] == path);
        }
    }
}

/// Listing a directory keeps a walk on course.
proof fn lemma_listing_keeps_course(tree: TreeView, before: WalkView, after: WalkView)
    requires
        is_on_course(tree, before),
        before.listing is Some,
        steps(tree, before, after),
    ensures
        is_on_course(tree, after),
{
    let directory = before.listing->0;
    let names = (tree.names)(directory);
    let children = walk::visible_children(directory, names);
    lemma_added(before, names, after);
    walk::lemma_all_but_metadata_is_visited(directory, names);
    assert forall|i: int| 0 <= i < after.pending.len() implies is_entry_path(
        tree,
        #[trigger] after.pending[i],
    ) by {
        let path = after.pending[i];
        assert(after.pending.contains(path));
        if before.pending.contains(path) {
            let j = choose|j: int| 0 <= j < before.pending.len() && before.pending[j] == path;
            assert(is_entry_path(tree, before.pending[j]));
        } else {
            assert(children.contains(path));
            let j = choose|j: int|
                0 <= j < names.len() && #[trigger] names[j] != walk::metadata_name() && path
                    == walk::joined(directory, names[j]);
            let way = choose|way: Seq<Seq<u8>>|
                #![trigger path_of(way)]
                path_of(way) == directory && (way.len() == 0 || (is_entry(tree, way) && (tree.kind)(
                    directory,
                ) == EntryKind::Directory));
            let longer = way.push(names[j]);
            assert(longer.drop_last() =~= way);
            assert(names.contains(names[j]));
            assert(is_entry(tree, longer));
        }
    }
    assert forall|way: Seq<Seq<u8>>| #[trigger] is_visible_chain(tree, way) implies after.files.contains(
        path_of(way),
    ) || is_ahead(after, way) by {
        if !before.files.contains(path_of(way)) {
            let count = choose|count: int|
                0 <= count <= way.len() && (leads_to_pending(before, #[trigger] way.take(count)) || (
                count < way.len() && before.listing == Some(path_of(way.take(count)))));
            if leads_to_pending(before, way.take(count)) {
                assert(leads_to_pending(after, way.take(count)));
            } else {
                lemma_first_names(tree, way, count + 1);
                let next = way.take(count + 1);
                assert(next.drop_last() =~= way.take(count));
                assert(names.contains(next.last()));
                let j = choose|j: int| 0 <= j < names.len() && names[j] == next.last();
                assert(names[j] != walk::metadata_name());
                assert(children.contains(path_of(next)));
                assert(leads_to_pending(after, next));
            }
        }
    }
}

/// Inspecting an entry keeps a walk on course.
proof fn lemma_inspecting_keeps_course(tree: TreeView, before: WalkView, after: WalkView)
    requires
        is_on_course(tree, before),
        before.listing is None,
        steps(tree, before, after),
    ensures
        is_on_course(tree, after),
{
    let path = before.pending.last();
    let kind = (tree.kind)(path);
    assert(is_entry_path(tree, before.pending[before.pending.len() - 1]));
    let own = choose|own: Seq<Seq<u8>>| #[trigger] is_entry(tree, own) && path_of(own) == path;
    assert forall|i: int| 0 <= i < after.pending.len() implies is_entry_path(
        tree,
        #[trigger] after.pending[i],
    ) by {
        assert(after.pending[i] == before.pending[i]);
    }
    assert forall|i: int| 0 <= i < after.files.len() implies is_visible(
        tree,
        #[trigger] after.files[i],
    ) by {
        if i < before.files.len() {
            assert(after.files[i] == before.files[i]);
        } else {
            assert(is_visible_chain(tree, own));
        }
    }
    if kind == EntryKind::Directory {
        assert(path_of(own) == path);
        assert(is_walked(tree, path));
    }
    assert forall|way: Seq<Seq<u8>>| #[trigger] is_visible_chain(tree, way) implies after.files.contains(
        path_of(way),
    ) || is_ahead(after, way) by {
        if before.files.contains(path_of(way)) {
            let i = choose|i: int| 0 <= i < before.files.len() && before.files[i] == path_of(way);
            assert(after.files[i] == path_of(way));
        } else {
            let count = choose|count: int|
                0 <= count <= way.len() && (leads_to_pending(before, #[trigger] way.take(count)) || (
                count < way.len() && before.listing == Some(path_of(way.take(count)))));
            let held = path_of(way.take(count));
            let i = choose|i: int| 0 <= i < before.pending.len() && before.pending[i] == held;
            if i < after.pending.len() {
                assert(after.pending[i] == held);
                assert(leads_to_pending(after, way.take(count)));
            } else {
                assert(held == path);
                lemma_first_names(tree, way, count);
                if count < way.len() {
                    assert(after.listing == Some(path_of(way.take(count))));
                } else {
                    assert(way.take(count) =~= way);
                    assert(after.files[after.files.len() - 1] == path);
                }
            }
        }
    }
}

/// A walk starts on course.
proof fn lemma_start_is_on_course(tree: TreeView)
    ensures
        is_on_course(tree, walk::started()),
{
    let start = walk::started();
    let none = Seq::<Seq<u8>>::empty();
    assert(path_of(none) =~= seq![]);
    assert(is_walked(tree, seq![]));
    assert forall|way: Seq<Seq<u8>>| #[trigger] is_visible_chain(tree, way) implies is_ahead(
        start,
        way,
    ) by {
        assert(way.take(0) =~= none);
        assert(start.listing == Some(path_of(way.take(0))));
    }
}

/// Every state of a walk is on course.
proof fn lemma_walks_stay_on_course(tree: TreeView, states: Seq<WalkView>, at: int)
    requires
        is_whole_walk(tree, states),
        0 <= at < states.len(),
    ensures
        is_on_course(tree, states[at]),
    decreases at,
{
    if at == 0 {
        lemma_start_is_on_course(tree);
    } else {
        lemma_walks_stay_on_course(tree, states, at - 1);
        assert(steps(tree, states[at - 1], states[at]));
        if states[at - 1].listing is Some {
            lemma_listing_keeps_course(tree, states[at - 1], states[at]);
        } else {
            lemma_inspecting_keeps_course(tree, states[at - 1], states[at]);
        }
    }
}

/// A whole walk finds exactly the visible files, in order.
pub proof fn lemma_walks_find_the_visible_files(
    tree: TreeView,
    states: Seq<WalkView>,
    files: Seq<Seq<u8>>,
)
    requires
        is_whole_walk(tree, states),
        walk::are_found(states.last(), files),
    ensures
        order::is_sorted(files),
        forall|path: Seq<u8>| #[trigger] files.contains(path) <==> is_visible(tree, path),
{
    let end = states.last();
    lemma_walks_stay_on_course(tree, states, states.len() - 1);
    assert forall|path: Seq<u8>| #[trigger] files.contains(path) <==> is_visible(tree, path) by {
        files.to_multiset_ensures();
        end.files.to_multiset_ensures();
        assert(files.to_multiset().count(path) == end.files.to_multiset().count(path));
        assert(files.contains(path) <==> end.files.contains(path));
        if end.files.contains(path) {
            let i = choose|i: int| 0 <= i < end.files.len() && end.files[i] == path;
            assert(is_visible(tree, end.files[i]));
        }
        if is_visible(tree, path) {
            let names = choose|names: Seq<Seq<u8>>|
                #![trigger is_visible_chain(tree, names)]
                is_visible_chain(tree, names) && path_of(names) == path;
            assert(!is_ahead(end, names));
        }
    }
}

/// Whether a path lies below a directory.
pub open spec fn is_below(directory: Seq<u8>, path: Seq<u8>) -> bool {
    if directory.len() == 0 {
        path.len() > 0
    } else {
        directory.len() < path.len() && path.take(directory.len() as int) == directory
            && path[directory.len() as int] == SLASH
    }
}

/// Whether a walk holds a path.
pub open spec fn holds(walk: WalkView, path: Seq<u8>) -> bool {
    walk.files.contains(path) || walk.pending.contains(path)
}

/// What else holds of a walk over a proper tree in every state: it holds no path twice, and none
/// below one that it is still to inspect or list.
pub open spec fn is_spread(walk: WalkView) -> bool {
    &&& walk.files.no_duplicates()
    &&& walk.pending.no_duplicates()
    &&& forall|path: Seq<u8>| #[trigger]
        walk.pending.contains(path) ==> path.len() > 0 && !walk.files.contains(path)
    &&& forall|above: Seq<u8>, path: Seq<u8>|
        #![trigger walk.pending.contains(above), holds(walk, path)]
        walk.pending.contains(above) && holds(walk, path) ==> !is_below(above, path)
    &&& walk.listing matches Some(directory) ==> {
        &&& !holds(walk, directory)
        &&& forall|path: Seq<u8>| #[trigger] holds(walk, path) ==> !is_below(directory, path)
        &&& forall|above: Seq<u8>| #[trigger]
            walk.pending.contains(above) ==> !is_below(above, directory)
    }
}

/// An entry of a directory lies below it; what lies below the entry lies below the directory; and
/// what the entry lies below is the directory or what that lies below.
proof fn lemma_below_entries(directory: Seq<u8>, name: Seq<u8>, other: Seq<u8>)
    requires
        is_proper_name(name),
    ensures
        is_below(directory, walk::joined(directory, name)),
        is_below(walk::joined(directory, name), other) ==> is_below(directory, other),
        other.len() > 0 && is_below(other, walk::joined(directory, name)) ==> other == directory
            || is_below(other, directory),
{
    let entry = walk::joined(directory, name);
    let len = directory.len() as int;
    if directory.len() > 0 {
        assert(entry.take(len) =~= directory);
        assert(entry[len] == SLASH);
        if is_below(entry, other) {
            assert(other.take(entry.len() as int) == entry);
            assert(other.take(len) =~= entry.take(len));
            assert(other[len] == entry[len]);
        }
    }
    if other.len() > 0 && is_below(other, entry) {
        let at = other.len() as int;
        assert(entry[at] == SLASH);
        if directory.len() == 0 {
            assert(name.contains(name[at]));
        } else if at > len {
            assert(entry[at] == name[at - len - 1]);
            assert(name.contains(name[at - len - 1]));
        } else if at == len {
            assert(entry.take(at) =~= directory);
        } else {
            assert(directory.take(at) =~= entry.take(at));
            assert(directory[at] == entry[at]);
        }
    }
}

/// Two entries of a directory do not lie below each other, and are the same only under one name.
proof fn lemma_entries_are_apart(directory: Seq<u8>, left: Seq<u8>, right: Seq<u8>)
    requires
        is_proper_name(left),
        is_proper_name(right),
    ensures
        !is_below(walk::joined(directory, left), walk::joined(directory, right)),
        walk::joined(directory, left) == walk::joined(directory, right) ==> left == right,
{
    let one = walk::joined(directory, left);
    let two = walk::joined(directory, right);
    let start: int = if directory.len() == 0 {
        0
    } else {
        directory.len() as int + 1
    };
    assert(one.skip(start) =~= left);
    assert(two.skip(start) =~= right);
    if is_below(one, two) {
        let at = one.len() as int;
        assert(two[at] == right[at - start]);
        assert(right.contains(right[at - start]));
    }
}

/// The visible entries of a directory are different where their names are.
proof fn lemma_children_differ(directory: Seq<u8>, names: Seq<Seq<u8>>)
    requires
        names.no_duplicates(),
        forall|i: int| 0 <= i < names.len() ==> is_proper_name(#[trigger] names[i]),
    ensures
        walk::visible_children(directory, names).no_duplicates(),
    decreases names.len(),
{
    if names.len() > 0 {
        let rest = names.drop_last();
        assert(rest.no_duplicates()) by {
            assert forall|i: int, j: int|
                0 <= i < rest.len() && 0 <= j < rest.len() && i != j implies rest[i] != rest[j] by {
                assert(rest[i] == names[i] && rest[j] == names[j]);
            }
        }
        assert forall|i: int| 0 <= i < rest.len() implies is_proper_name(#[trigger] rest[i]) by {
            assert(rest[i] == names[i]);
        }
        lemma_children_differ(directory, rest);
        walk::lemma_all_but_metadata_is_visited(directory, rest);
        let before = walk::visible_children(directory, rest);
        let last = names[names.len() - 1];
        let added = walk::joined(directory, last);
        if before.contains(added) {
            let i = choose|i: int|
                0 <= i < rest.len() && #[trigger] rest[i] != walk::metadata_name() && added
                    == walk::joined(directory, rest[i]);
            assert(rest[i] == names[i]);
            lemma_entries_are_apart(directory, rest[i], last);
        }
    }
}

/// What is added when a directory is listed is added once.
proof fn lemma_added_once(before: WalkView, names: Seq<Seq<u8>>, after: WalkView)
    requires
        before.listing is Some,
        walk::takes_names(before, names, after),
        before.pending.no_duplicates(),
        walk::visible_children(before.listing->0, names).no_duplicates(),
        forall|path: Seq<u8>| #[trigger]
            walk::visible_children(before.listing->0, names).contains(path)
                ==> !before.pending.contains(path),
    ensures
        after.pending.no_duplicates(),
{
    let children = walk::visible_children(before.listing->0, names);
    let first = before.pending;
    let added = after.pending.skip(first.len() as int);
    let turned = added.reverse();
    children.lemma_multiset_has_no_duplicates();
    turned.lemma_multiset_has_no_duplicates_conv();
    turned.to_multiset_ensures();
    children.to_multiset_ensures();
    assert(after.pending =~= first + added);
    assert forall|i: int, j: int|
        0 <= i < after.pending.len() && 0 <= j < after.pending.len() && i
            != j implies after.pending[i] != after.pending[j] by {
        let n = first.len() as int;
        if i >= n && j >= n {
            assert(after.pending[i] == turned[added.len() - 1 - (i - n)]);
            assert(after.pending[j] == turned[added.len() - 1 - (j - n)]);
        } else if i >= n || j >= n {
            let (old_at, new_at) = if i >= n {
                (j, i)
            } else {
                (i, j)
            };
            let path = after.pending[new_at];
            assert(turned[added.len() - 1 - (new_at - n)] == path);
            assert(turned.contains(path));
            assert(turned.to_multiset().count(path) == children.to_multiset().count(path));
            assert(children.contains(path));
            assert(after.pending[old_at] == first[old_at]);
            assert(first.contains(first[old_at]));
        }
    }
}

/// Listing a directory of a proper tree keeps a walk spread.
proof fn lemma_listing_keeps_spread(tree: TreeView, before: WalkView, after: WalkView)
    requires
        is_proper(tree),
        is_spread(before),
        before.listing is Some,
        steps(tree, before, after),
    ensures
        is_spread(after),
{
    let directory = before.listing->0;
    let names = (tree.names)(directory);
    let children = walk::visible_children(directory, names);
    lemma_added(before, names, after);
    walk::lemma_all_but_metadata_is_visited(directory, names);
    lemma_children_differ(directory, names);
    assert forall|path: Seq<u8>| #[trigger] children.contains(path) implies path.len() > 0 && !holds(
        before,
        path,
    ) by {
        let i = choose|i: int|
            0 <= i < names.len() && #[trigger] names[i] != walk::metadata_name() && path
                == walk::joined(directory, names[i]);
        lemma_below_entries(directory, names[i], path);
    }
    lemma_added_once(before, names, after);
    assert forall|path: Seq<u8>| #[trigger] after.pending.contains(path) implies path.len() > 0
        && !after.files.contains(path) by {
        if children.contains(path) {
            assert(!holds(before, path));
        }
    }
    assert forall|above: Seq<u8>, path: Seq<u8>|
        #![trigger after.pending.contains(above), holds(after, path)]
        after.pending.contains(above) && holds(after, path) implies !is_below(above, path) by {
        if children.contains(above) {
            let i = choose|i: int|
                0 <= i < names.len() && #[trigger] names[i] != walk::metadata_name() && above
                    == walk::joined(directory, names[i]);
            if holds(before, path) {
                lemma_below_entries(directory, names[i], path);
            } else {
                assert(children.contains(path));
                let j = choose|j: int|
                    0 <= j < names.len() && #[trigger] names[j] != walk::metadata_name() && path
                        == walk::joined(directory, names[j]);
                lemma_entries_are_apart(directory, names[i], names[j]);
            }
        } else {
            assert(before.pending.contains(above));
            if holds(before, path) {
                assert(!is_below(above, path));
            } else {
                assert(children.contains(path));
                let j = choose|j: int|
                    0 <= j < names.len() && #[trigger] names[j] != walk::metadata_name() && path
                        == walk::joined(directory, names[j]);
                lemma_below_entries(directory, names[j], above);
                assert(holds(before, above));
            }
        }
    }
}

/// Inspecting an entry keeps a walk spread.
proof fn lemma_inspecting_keeps_spread(tree: TreeView, before: WalkView, after: WalkView)
    requires
        is_spread(before),
        before.listing is None,
        steps(tree, before, after),
    ensures
        is_spread(after),
{
    let path = before.pending.last();
    let last = before.pending.len() - 1;
    assert(before.pending[last] == path);
    assert(before.pending.contains(path));
    assert forall|other: Seq<u8>| #[trigger] after.pending.contains(other) implies before.pending.contains(
        other,
    ) && other != path by {
        let i = choose|i: int| 0 <= i < after.pending.len() && after.pending[i] == other;
        assert(before.pending[i] == other);
    }
    assert forall|other: Seq<u8>| #[trigger] after.files.contains(other) implies before.files.contains(
        other,
    ) || other == path by {
        let i = choose|i: int| 0 <= i < after.files.len() && after.files[i] == other;
        if i < before.files.len() {
            assert(before.files[i] == other);
        }
    }
    assert forall|other: Seq<u8>| #[trigger] holds(after, other) implies holds(before, other) by {}
    assert(holds(before, path));
    assert forall|i: int, j: int|
        0 <= i < after.files.len() && 0 <= j < after.files.len() && i != j implies after.files[i]
        != after.files[j] by {
        if i < before.files.len() {
            assert(before.files.contains(before.files[i]));
        }
        if j < before.files.len() {
            assert(before.files.contains(before.files[j]));
        }
    }
    assert(!before.files.contains(path));
}

/// Every state of a walk over a proper tree is spread.
proof fn lemma_walks_stay_spread(tree: TreeView, states: Seq<WalkView>, at: int)
    requires
        is_proper(tree),
        is_whole_walk(tree, states),
        0 <= at < states.len(),
    ensures
        is_spread(states[at]),
    decreases at,
{
    if at > 0 {
        lemma_walks_stay_spread(tree, states, at - 1);
        assert(steps(tree, states[at - 1], states[at]));
        if states[at - 1].listing is Some {
            lemma_listing_keeps_spread(tree, states[at - 1], states[at]);
        } else {
            lemma_inspecting_keeps_spread(tree, states[at - 1], states[at]);
        }
    }
}

/// A whole walk over a proper tree finds no file twice.
pub proof fn lemma_walks_find_no_file_twice(
    tree: TreeView,
    states: Seq<WalkView>,
    files: Seq<Seq<u8>>,
)
    requires
        is_proper(tree),
        is_whole_walk(tree, states),
        walk::are_found(states.last(), files),
    ensures
        files.no_duplicates(),
{
    lemma_walks_stay_spread(tree, states, states.len() - 1);
    states.last().files.lemma_multiset_has_no_duplicates();
    files.lemma_multiset_has_no_duplicates_conv();
}

} // verus!
