//! The order of paths, name by name.

use vstd::prelude::*;

use crate::bytes;
use crate::path;
use crate::path::RepoPath;

verus! {

/// Whether bytes come before others, or are equal, in lexicographic order.
pub open spec fn bytes_ordered(left: Seq<u8>, right: Seq<u8>) -> bool
    decreases left.len(),
{
    if left.len() == 0 {
        true
    } else if right.len() == 0 {
        false
    } else if left[0] != right[0] {
        left[0] < right[0]
    } else {
        bytes_ordered(left.skip(1), right.skip(1))
    }
}

/// Whether names come before others, or are equal, in lexicographic order.
pub open spec fn names_ordered(left: Seq<Seq<u8>>, right: Seq<Seq<u8>>) -> bool
    decreases left.len(),
{
    if left.len() == 0 {
        true
    } else if right.len() == 0 {
        false
    } else if left[0] != right[0] {
        bytes_ordered(left[0], right[0])
    } else {
        names_ordered(left.skip(1), right.skip(1))
    }
}

/// Whether a path comes before another, or has the same components.
pub open spec fn paths_ordered(left: Seq<u8>, right: Seq<u8>) -> bool {
    names_ordered(path::components(left), path::components(right))
}

/// Whether paths are in order.
pub open spec fn is_sorted(paths: Seq<Seq<u8>>) -> bool {
    forall|i: int, j: int|
        0 <= i < j < paths.len() ==> paths_ordered(#[trigger] paths[i], #[trigger] paths[j])
}

/// The bytes of paths.
pub open spec fn path_bytes(paths: Seq<RepoPath>) -> Seq<Seq<u8>> {
    paths.map_values(|path: RepoPath| path@)
}

/// Of two byte strings one comes before the other; where both do, they are equal.
pub proof fn lemma_bytes_total(left: Seq<u8>, right: Seq<u8>)
    ensures
        bytes_ordered(left, right) || bytes_ordered(right, left),
        bytes_ordered(left, right) && bytes_ordered(right, left) ==> left == right,
    decreases left.len(),
{
    if left.len() > 0 && right.len() > 0 {
        lemma_bytes_total(left.skip(1), right.skip(1));
        if left[0] == right[0] && left.skip(1) == right.skip(1) {
            assert(left =~= seq![left[0]] + left.skip(1));
            assert(right =~= seq![right[0]] + right.skip(1));
        }
    } else if left.len() == 0 && right.len() == 0 {
        assert(left =~= right);
    }
}

/// The order of byte strings is transitive.
pub proof fn lemma_bytes_transitive(a: Seq<u8>, b: Seq<u8>, c: Seq<u8>)
    requires
        bytes_ordered(a, b),
        bytes_ordered(b, c),
    ensures
        bytes_ordered(a, c),
    decreases a.len(),
{
    if a.len() > 0 && b.len() > 0 && c.len() > 0 {
        if a[0] == b[0] && b[0] == c[0] {
            lemma_bytes_transitive(a.skip(1), b.skip(1), c.skip(1));
        }
    }
}

/// Of two sequences of names one comes before the other.
pub proof fn lemma_names_total(left: Seq<Seq<u8>>, right: Seq<Seq<u8>>)
    ensures
        names_ordered(left, right) || names_ordered(right, left),
    decreases left.len(),
{
    if left.len() > 0 && right.len() > 0 {
        lemma_names_total(left.skip(1), right.skip(1));
        lemma_bytes_total(left[0], right[0]);
    }
}

/// The order of sequences of names is transitive.
pub proof fn lemma_names_transitive(a: Seq<Seq<u8>>, b: Seq<Seq<u8>>, c: Seq<Seq<u8>>)
    requires
        names_ordered(a, b),
        names_ordered(b, c),
    ensures
        names_ordered(a, c),
    decreases a.len(),
{
    if a.len() > 0 && b.len() > 0 && c.len() > 0 {
        if a[0] == b[0] && b[0] == c[0] {
            lemma_names_transitive(a.skip(1), b.skip(1), c.skip(1));
        } else if a[0] != b[0] && b[0] != c[0] {
            lemma_bytes_transitive(a[0], b[0], c[0]);
            lemma_bytes_total(a[0], b[0]);
        }
    }
}

/// Compare bytes.
pub fn bytes_in_order(left: &[u8], right: &[u8]) -> (result: bool)
    ensures
        result == bytes_ordered(left@, right@),
{
    let mut i: usize = 0;
    assert(left@.skip(0) =~= left@);
    assert(right@.skip(0) =~= right@);
    while i < left.len() && i < right.len()
        invariant
            i <= left@.len(),
            i <= right@.len(),
            bytes_ordered(left@, right@) == bytes_ordered(
                left@.skip(i as int),
                right@.skip(i as int),
            ),
        decreases left.len() - i,
    {
        assert(left@.skip(i as int).skip(1) =~= left@.skip(i + 1));
        assert(right@.skip(i as int).skip(1) =~= right@.skip(i + 1));
        if left[i] != right[i] {
            return left[i] < right[i];
        }
        i = i + 1;
    }
    i == left.len()
}

/// Compare names.
pub fn names_in_order(left: &[Vec<u8>], right: &[Vec<u8>]) -> (result: bool)
    ensures
        result == names_ordered(bytes::blobs(left@), bytes::blobs(right@)),
{
    let ghost a = bytes::blobs(left@);
    let ghost b = bytes::blobs(right@);
    let mut i: usize = 0;
    assert(a.skip(0) =~= a);
    assert(b.skip(0) =~= b);
    while i < left.len() && i < right.len()
        invariant
            a == bytes::blobs(left@),
            b == bytes::blobs(right@),
            i <= left@.len(),
            i <= right@.len(),
            names_ordered(a, b) == names_ordered(a.skip(i as int), b.skip(i as int)),
        decreases left.len() - i,
    {
        assert(a.skip(i as int).skip(1) =~= a.skip(i + 1));
        assert(b.skip(i as int).skip(1) =~= b.skip(i + 1));
        assert(a.skip(i as int)[0] == left@[i as int]@);
        assert(b.skip(i as int)[0] == right@[i as int]@);
        if !bytes::same_bytes(&left[i], &right[i]) {
            return bytes_in_order(&left[i], &right[i]);
        }
        i = i + 1;
    }
    i == left.len()
}

impl RepoPath {
    /// Whether this path comes before another, or has the same components.
    pub fn in_order(&self, other: &RepoPath) -> (result: bool)
        ensures
            result == paths_ordered(self@, other@),
    {
        names_in_order(&self.components(), &other.components())
    }
}

/// Insert a path into sorted paths.
fn insert_path(paths: &mut Vec<RepoPath>, path: RepoPath)
    requires
        is_sorted(path_bytes(old(paths)@)),
    ensures
        is_sorted(path_bytes(final(paths)@)),
        path_bytes(final(paths)@).to_multiset() == path_bytes(old(paths)@).to_multiset().insert(
            path@,
        ),
{
    let ghost before = path_bytes(paths@);
    let ghost added = path@;
    let mut at: usize = paths.len();
    while at > 0 && !paths[at - 1].in_order(&path)
        invariant
            at <= paths@.len(),
            before == path_bytes(paths@),
            added == path@,
            forall|i: int|
                at <= i < before.len() ==> !paths_ordered(#[trigger] before[i], added),
        decreases at,
    {
        at = at - 1;
        assert(before[at as int] == paths@[at as int]@);
    }
    paths.insert(at, path);
    proof {
        let after = path_bytes(paths@);
        assert(after =~= before.insert(at as int, added));
        vstd::seq_lib::to_multiset_insert(before, at as int, added);
        assert forall|i: int, j: int| 0 <= i < j < after.len() implies paths_ordered(
            #[trigger] after[i],
            #[trigger] after[j],
        ) by {
            if i == at {
                assert(after[j] == before[j - 1]);
                lemma_names_total(path::components(added), path::components(before[j - 1]));
            } else if j == at {
                assert(after[i] == before[i]);
                assert(before[at - 1] == paths@[at - 1]@);
                if i < at - 1 {
                    assert(paths_ordered(before[i], before[at - 1]));
                    lemma_names_transitive(
                        path::components(before[i]),
                        path::components(before[at - 1]),
                        path::components(added),
                    );
                }
            } else {
                let old_i = if i < at { i } else { i - 1 };
                let old_j = if j < at { j } else { j - 1 };
                assert(after[i] == before[old_i] && after[j] == before[old_j]);
            }
        }
    }
}

/// Sort paths.
pub fn sort_paths(paths: Vec<RepoPath>) -> (result: Vec<RepoPath>)
    ensures
        is_sorted(path_bytes(result@)),
        path_bytes(result@).to_multiset() == path_bytes(paths@).to_multiset(),
{
    let ghost views = path_bytes(paths@);
    let mut result: Vec<RepoPath> = Vec::new();
    assert(path_bytes(result@) =~= views.take(0));
    for i in 0..paths.len()
        invariant
            views == path_bytes(paths@),
            is_sorted(path_bytes(result@)),
            path_bytes(result@).to_multiset() == views.take(i as int).to_multiset(),
    {
        insert_path(&mut result, paths[i].copied());
        proof {
            assert(views.take(i + 1) =~= views.take(i as int).push(views[i as int]));
            vstd::seq_lib::to_multiset_build(views.take(i as int), views[i as int]);
        }
    }
    assert(views.take(views.len() as int) =~= views);
    result
}

} // verus!
