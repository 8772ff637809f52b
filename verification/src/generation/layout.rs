//! The layout of a working tree.

use vstd::prelude::*;
use vstd::string::StringExecFns;

use crate::bytes;
use crate::order;
use crate::path;
use crate::path::RepoPath;
use crate::text;

verus! {

/// Maximum number of non-ignored working-tree files shown as repository structure.
pub const MAX_WORKING_TREE_FILES: usize = 500;

/// A character with line breaks escaped.
pub open spec fn escaped_character(character: char) -> Seq<char> {
    if character == '\n' {
        "\\n"@
    } else if character == '\r' {
        "\\r"@
    } else {
        seq![character]
    }
}

/// A text with line breaks escaped.
pub open spec fn escaped(text: Seq<char>) -> Seq<char>
    decreases text.len(),
{
    if text.len() == 0 {
        seq![]
    } else {
        escaped(text.drop_last()) + escaped_character(text.last())
    }
}

/// The number of leading names that two paths share.
pub open spec fn shared(left: Seq<Seq<u8>>, right: Seq<Seq<u8>>) -> nat
    decreases left.len(),
{
    if left.len() > 0 && right.len() > 0 && left[0] == right[0] {
        1 + shared(left.skip(1), right.skip(1))
    } else {
        0
    }
}

/// The line of one name, indented by its depth; a directory ends in a slash.
pub open spec fn name_line(names: Seq<Seq<u8>>, depth: int) -> Seq<char> {
    text::repeated("  "@, depth as nat) + escaped(text::lossy_utf8(names[depth])) + (if depth + 1
        == names.len() {
        ""@
    } else {
        "/"@
    }) + "\n"@
}

/// The lines of the names from one depth on.
pub open spec fn name_lines(names: Seq<Seq<u8>>, from: nat, to: nat) -> Seq<char>
    decreases to,
{
    if to <= from {
        seq![]
    } else {
        name_lines(names, from, (to - 1) as nat) + name_line(names, to - 1)
    }
}

/// The lines of paths: each leaves out what it shares with the one before it.
pub open spec fn tree_lines(paths: Seq<Seq<Seq<u8>>>) -> Seq<char>
    decreases paths.len(),
{
    if paths.len() == 0 {
        seq![]
    } else {
        let names = paths.last();
        let previous = if paths.len() == 1 {
            seq![]
        } else {
            paths[paths.len() - 2]
        };
        tree_lines(paths.drop_last()) + name_lines(names, shared(previous, names), names.len())
    }
}

/// The names of paths.
pub open spec fn all_names(paths: Seq<Seq<u8>>) -> Seq<Seq<Seq<u8>>> {
    paths.map_values(|path: Seq<u8>| path::components(path))
}

/// Paths as an indented directory hierarchy.
pub open spec fn hierarchy(paths: Seq<Seq<u8>>) -> Seq<char> {
    if paths.len() == 0 {
        "(working tree is empty)"@
    } else {
        text::trim_end(tree_lines(all_names(paths)))
    }
}

/// The first files of a working tree as a hierarchy, with the number of those left out.
pub open spec fn working_tree(paths: Seq<Seq<u8>>) -> Seq<char> {
    if paths.len() > MAX_WORKING_TREE_FILES {
        hierarchy(paths.take(MAX_WORKING_TREE_FILES as int)) + "... ("@ + text::decimal(
            (paths.len() - MAX_WORKING_TREE_FILES) as nat,
        ) + " more files omitted)\n"@
    } else {
        hierarchy(paths)
    }
}

/// Render a path component while escaping line breaks.
pub fn display_path_component(component: &[u8]) -> (result: String)
    ensures
        result@ == escaped(text::lossy_utf8(component@)),
{
    let shown = text::lossy_text(component);
    let chars = text::chars_of(&shown);
    let mut result = String::new();
    assert(result@ =~= escaped(shown@.take(0)));
    for i in 0..chars.len()
        invariant
            chars@ == shown@,
            result@ == escaped(shown@.take(i as int)),
    {
        assert(shown@.take(i + 1).drop_last() =~= shown@.take(i as int));
        let character = chars[i];
        assert(shown@.take(i + 1).last() == character);
        let ghost before = result@;
        if character == '\n' {
            result.append("\\n");
        } else if character == '\r' {
            result.append("\\r");
        } else {
            result.push(character);
            assert(result@ =~= before + seq![character]);
        }
    }
    assert(shown@.take(shown@.len() as int) =~= shown@);
    result
}

/// The number of leading names that two paths share.
fn count_shared(left: &[Vec<u8>], right: &[Vec<u8>]) -> (count: usize)
    ensures
        count == shared(bytes::blobs(left@), bytes::blobs(right@)),
        count <= right@.len(),
{
    let ghost a = bytes::blobs(left@);
    let ghost b = bytes::blobs(right@);
    let mut count: usize = 0;
    assert(a.skip(0) =~= a);
    assert(b.skip(0) =~= b);
    while count < left.len() && count < right.len() && bytes::same_bytes(
        &left[count],
        &right[count],
    )
        invariant
            a == bytes::blobs(left@),
            b == bytes::blobs(right@),
            count <= left@.len(),
            count <= right@.len(),
            shared(a, b) == count + shared(a.skip(count as int), b.skip(count as int)),
        decreases left.len() - count,
    {
        assert(a.skip(count as int)[0] == left@[count as int]@);
        assert(b.skip(count as int)[0] == right@[count as int]@);
        assert(a.skip(count as int).skip(1) =~= a.skip(count + 1));
        assert(b.skip(count as int).skip(1) =~= b.skip(count + 1));
        count = count + 1;
    }
    if count < left.len() && count < right.len() {
        assert(a.skip(count as int)[0] == left@[count as int]@);
        assert(b.skip(count as int)[0] == right@[count as int]@);
    }
    count
}

/// Render paths as an indented directory hierarchy.
pub fn render_working_tree(files: &[RepoPath]) -> (result: String)
    ensures
        result@ == hierarchy(order::path_bytes(files@)),
{
    if files.len() == 0 {
        return "(working tree is empty)".to_owned();
    }
    let ghost paths = order::path_bytes(files@);
    let ghost all = all_names(paths);
    let mut output = String::new();
    let mut previous: Vec<Vec<u8>> = Vec::new();
    assert(bytes::blobs(previous@) =~= seq![]);
    assert(output@ =~= tree_lines(all.take(0)));
    for i in 0..files.len()
        invariant
            paths == order::path_bytes(files@),
            all == all_names(paths),
            bytes::blobs(previous@) == if i == 0 {
                seq![]
            } else {
                all[i - 1]
            },
            output@ == tree_lines(all.take(i as int)),
    {
        let names = files[i].components();
        let ghost views = bytes::blobs(names@);
        assert(paths[i as int] == files@[i as int]@);
        assert(all[i as int] == views);
        assert(all.take(i + 1).drop_last() =~= all.take(i as int));
        assert(all.take(i + 1).last() == views);
        let ghost start = output@;
        let common = count_shared(&previous, &names);
        assert(output@ =~= start + name_lines(views, common as nat, common as nat));
        for depth in common..names.len()
            invariant
                views == bytes::blobs(names@),
                output@ == start + name_lines(views, common as nat, depth as nat),
        {
            assert(views[depth as int] == names@[depth as int]@);
            let ghost before = name_lines(views, common as nat, depth as nat);
            text::append_repeated(&mut output, "  ", depth);
            output.append(&display_path_component(&names[depth]));
            if depth + 1 != names.len() {
                output.append("/");
            } else {
                output.append("");
            }
            output.append("\n");
            assert(output@ =~= start + (before + name_line(views, depth as int)));
        }
        previous = names;
    }
    assert(all.take(files@.len() as int) =~= all);
    text::right_trimmed(&output)
}

/// Render the visible working-tree files as a compact directory hierarchy.
pub fn working_tree_text(files: &[RepoPath]) -> (result: String)
    ensures
        result@ == working_tree(order::path_bytes(files@)),
{
    let ghost paths = order::path_bytes(files@);
    if files.len() <= MAX_WORKING_TREE_FILES {
        return render_working_tree(files);
    }
    let mut shown: Vec<RepoPath> = Vec::new();
    for i in 0..MAX_WORKING_TREE_FILES
        invariant
            files@.len() > MAX_WORKING_TREE_FILES,
            paths == order::path_bytes(files@),
            order::path_bytes(shown@) =~= paths.take(i as int),
    {
        let ghost before = order::path_bytes(shown@);
        let file = files[i].copied();
        shown.push(file);
        assert(order::path_bytes(shown@) =~= before.push(file@));
        assert(paths[i as int] == file@);
    }
    let mut output = render_working_tree(&shown);
    output.append("... (");
    text::append_decimal(&mut output, (files.len() - MAX_WORKING_TREE_FILES) as u64);
    output.append(" more files omitted)\n");
    output
}

/// A shown name holds no line break.
pub proof fn lemma_escaped_names_hold_no_line_breaks(text: Seq<char>)
    ensures
        !escaped(text).contains('\n'),
        !escaped(text).contains('\r'),
    decreases text.len(),
{
    if text.len() > 0 {
        lemma_escaped_names_hold_no_line_breaks(text.drop_last());
        reveal_strlit("\\n");
        reveal_strlit("\\r");
        let before = escaped(text.drop_last());
        let last = escaped_character(text.last());
        let whole = escaped(text);
        assert forall|i: int| 0 <= i < whole.len() implies whole[i] != '\n' && whole[i] != '\r' by {
            if i < before.len() {
                assert(whole[i] == before[i]);
                assert(before.contains(before[i]));
            } else {
                assert(whole[i] == last[i - before.len()]);
            }
        }
    }
}

/// A name without line breaks is shown as it is.
pub proof fn lemma_names_without_line_breaks_are_shown_as_they_are(text: Seq<char>)
    requires
        !text.contains('\n'),
        !text.contains('\r'),
    ensures
        escaped(text) == text,
    decreases text.len(),
{
    if text.len() > 0 {
        let rest = text.drop_last();
        assert forall|i: int| 0 <= i < rest.len() implies rest[i] != '\n' && rest[i] != '\r' by {
            assert(text[i] == rest[i]);
        }
        lemma_names_without_line_breaks_are_shown_as_they_are(rest);
        assert(text[text.len() - 1] == text.last());
        assert(escaped(text) =~= text);
    } else {
        assert(escaped(text) =~= text);
    }
}

proof fn lemma_name_lines_hold_every_name(names: Seq<Seq<u8>>, from: nat, to: nat, depth: int)
    requires
        from <= depth < to <= names.len(),
    ensures
        text::occurs(name_line(names, depth), name_lines(names, from, to)),
    decreases to,
{
    let before = name_lines(names, from, (to - 1) as nat);
    let line = name_line(names, depth);
    if depth == to - 1 {
        text::lemma_occurs_in_itself(line);
        text::lemma_occurs_within(line, before, line, seq![]);
        assert(before + line + seq![] =~= before + line);
    } else {
        lemma_name_lines_hold_every_name(names, from, (to - 1) as nat, depth);
        text::lemma_occurs_within(line, seq![], before, name_line(names, to - 1));
        assert(seq![] + before + name_line(names, to - 1) =~= name_lines(names, from, to));
    }
}

proof fn lemma_shared_names(left: Seq<Seq<u8>>, right: Seq<Seq<u8>>, depth: int)
    ensures
        shared(left, right) <= left.len(),
        shared(left, right) <= right.len(),
        0 <= depth < shared(left, right) ==> left[depth] == right[depth],
    decreases left.len(),
{
    if left.len() > 0 && right.len() > 0 && left[0] == right[0] {
        lemma_shared_names(left.skip(1), right.skip(1), depth - 1);
        if 0 < depth < shared(left, right) {
            assert(left.skip(1)[depth - 1] == left[depth]);
            assert(right.skip(1)[depth - 1] == right[depth]);
        }
    }
}

/// The line of a name at a depth: two blanks for each directory around it, the name, and a slash
/// where names follow it.
pub open spec fn line_at(name: Seq<u8>, depth: nat, is_directory: bool) -> Seq<char> {
    text::repeated("  "@, depth) + escaped(text::lossy_utf8(name)) + (if is_directory {
        "/\n"@
    } else {
        "\n"@
    })
}

/// Every name of every path has its line: the last as a file, those before it as directories.
/// Where neighbouring paths are different files, none is the start of the other.
pub proof fn lemma_every_name_has_its_line(paths: Seq<Seq<Seq<u8>>>, i: int, depth: int)
    requires
        0 <= i < paths.len(),
        0 <= depth < paths[i].len(),
        forall|j: int|
            0 < j < paths.len() ==> shared(paths[j - 1], #[trigger] paths[j]) < paths[j - 1].len()
                && shared(paths[j - 1], paths[j]) < paths[j].len(),
    ensures
        text::occurs(
            line_at(paths[i][depth], depth as nat, depth + 1 < paths[i].len()),
            tree_lines(paths),
        ),
    decreases paths.len(), depth + i,
{
    let line = line_at(paths[i][depth], depth as nat, depth + 1 < paths[i].len());
    let rest = paths.drop_last();
    let names = paths.last();
    let before = tree_lines(rest);
    let previous = if paths.len() == 1 {
        seq![]
    } else {
        paths[paths.len() - 2]
    };
    let from = shared(previous, names);
    lemma_shared_names(previous, names, depth);
    assert(line =~= name_line(paths[i], depth)) by {
        reveal_strlit("/\n");
        reveal_strlit("/");
        reveal_strlit("\n");
        reveal_strlit("");
    }
    let last = name_lines(names, from, names.len());
    if i == paths.len() - 1 && depth >= from {
        lemma_name_lines_hold_every_name(names, from, names.len(), depth);
        text::lemma_occurs_within(line, before, last, seq![]);
        assert(before + last + seq![] =~= tree_lines(paths));
    } else {
        let at = if i == paths.len() - 1 {
            i - 1
        } else {
            i
        };
        assert forall|j: int| 0 < j < rest.len() implies shared(rest[j - 1], #[trigger] rest[j])
            < rest[j - 1].len() && shared(rest[j - 1], rest[j]) < rest[j].len() by {
            assert(rest[j] == paths[j]);
            assert(rest[j - 1] == paths[j - 1]);
        }
        assert(rest[at] == paths[at]);
        if i == paths.len() - 1 {
            assert(paths[paths.len() - 1] == names);
            assert(from < previous.len() && from < names.len());
            assert(rest[at][depth] == names[depth]);
        }
        lemma_every_name_has_its_line(rest, at, depth);
        text::lemma_occurs_within(line, seq![], before, last);
        assert(seq![] + before + last =~= tree_lines(paths));
    }
}

/// Only the first 500 files are shown: what follows them is the number of the others.
pub proof fn lemma_large_trees_name_what_they_leave_out(paths: Seq<Seq<u8>>)
    ensures
        paths.len() > 500 ==> working_tree(paths) == working_tree(paths.take(500)) + "... ("@
            + text::decimal((paths.len() - 500) as nat) + " more files omitted)\n"@,
        0 < paths.len() <= 500 ==> working_tree(paths) == text::trim_end(
            tree_lines(all_names(paths)),
        ),
        paths.len() == 0 ==> working_tree(paths) == "(working tree is empty)"@,
{
}

} // verus!
