//! What the syntax tree and the source text say about a node.

use vstd::prelude::*;

use crate::bytes;
use crate::syntax::tree;
use crate::syntax::tree::{range_of, SyntaxTree};
use crate::text;

verus! {

/// Maximum bytes retained for one declaration or call line.
pub const MAX_SOURCE_BYTES: usize = 400;

/// A text without its trailing opening braces.
pub open spec fn trim_braces(text: Seq<char>) -> Seq<char>
    decreases text.len(),
{
    if text.len() > 0 && text.last() == '{' {
        trim_braces(text.drop_last())
    } else {
        text
    }
}

/// Source text as it is shown: trimmed, without the opening brace of a body, and only where
/// something is left that is not too long.
pub open spec fn compact(source: Seq<u8>) -> Option<Seq<char>> {
    let shown = text::trim(trim_braces(text::trim(text::lossy_utf8(source))));
    if shown.len() > 0 && text::byte_len(shown) <= MAX_SOURCE_BYTES {
        Some(shown)
    } else {
        None
    }
}

/// The source line of a row as it is shown.
pub open spec fn row_text(source: Seq<u8>, row: int) -> Option<Seq<char>> {
    let rows = text::split(source, bytes::LINE_FEED);
    if 0 <= row < rows.len() {
        compact(rows[row])
    } else {
        None
    }
}

/// Trim and bound source text for prompt context.
pub fn compact_source(source: &[u8]) -> (result: Option<String>)
    ensures
        text::optional_text(result) == compact(source@),
{
    let decoded = text::lossy_text(source);
    let outer = text::trimmed(&decoded);
    let chars = text::chars_of(&outer);
    let mut end: usize = chars.len();
    assert(chars@.take(end as int) =~= chars@);
    while end > 0 && chars[end - 1] == '{'
        invariant
            end <= chars@.len(),
            trim_braces(chars@.take(end as int)) == trim_braces(chars@),
        decreases end,
    {
        assert(chars@.take(end as int).drop_last() =~= chars@.take(end - 1));
        end = end - 1;
    }
    let inner = text::text_between(&chars, 0, end);
    assert(inner@ =~= chars@.take(end as int));
    let shown = text::trimmed(&inner);
    if !shown.as_str().is_empty() && shown.as_str().as_bytes().len() <= MAX_SOURCE_BYTES {
        Some(shown)
    } else {
        None
    }
}

/// Return a compact source line by zero-based row.
pub fn source_line(source: &[u8], row: usize) -> (result: Option<String>)
    ensures
        text::optional_text(result) == row_text(source@, row as int),
{
    let rows = bytes::split_bytes(source, bytes::LINE_FEED);
    assert(bytes::blobs(rows@).len() == rows@.len());
    if row < rows.len() {
        assert(bytes::blobs(rows@)[row as int] == rows@[row as int]@);
        compact_source(&rows[row])
    } else {
        None
    }
}

/// A text without any white space.
pub open spec fn without_space(text: Seq<char>) -> Seq<char>
    decreases text.len(),
{
    if text.len() == 0 {
        seq![]
    } else if text::is_space(text.last()) {
        without_space(text.drop_last())
    } else {
        without_space(text.drop_last()).push(text.last())
    }
}

/// Whether an attribute marks its item as a test.
pub open spec fn marks_test(source: Seq<u8>, attribute: tree::NodeView) -> bool {
    match tree::source_range(source, attribute.start_byte as int, attribute.end_byte as int) {
        Some(range) => {
            let shown = without_space(text::lossy_utf8(range));
            ||| text::occurs("#[test]"@, shown)
            ||| text::occurs("::test]"@, shown)
            ||| text::occurs("cfg(test)"@, shown)
        },
        None => false,
    }
}

/// The attribute immediately before a node, if there is one.
pub open spec fn attribute_before(nodes: Seq<tree::NodeView>, index: int) -> Option<int> {
    match tree::previous_named(nodes, index) {
        Some(found) => if 0 <= found < index && nodes[found].kind == "attribute_item"@ {
            Some(found)
        } else {
            None
        },
        None => None,
    }
}

/// Whether one of the attributes immediately before a node marks it as a test.
pub open spec fn has_test_attribute(
    nodes: Seq<tree::NodeView>,
    source: Seq<u8>,
    index: int,
) -> bool
    decreases index,
{
    match attribute_before(nodes, index) {
        Some(found) => if 0 <= found < index {
            marks_test(source, nodes[found]) || has_test_attribute(nodes, source, found)
        } else {
            false
        },
        None => false,
    }
}

/// Whether a node is itself a test module or function.
pub open spec fn is_test_item(nodes: Seq<tree::NodeView>, source: Seq<u8>, index: int) -> bool {
    ||| nodes[index].kind == "mod_item"@ && named(nodes, source, index, "tests"@)
    ||| (nodes[index].kind == "mod_item"@ || nodes[index].kind == "function_item"@)
        && has_test_attribute(nodes, source, index)
}

/// Whether the `name` field of a node reads `name`.
pub open spec fn named(
    nodes: Seq<tree::NodeView>,
    source: Seq<u8>,
    index: int,
    name: Seq<char>,
) -> bool {
    match tree::field_child(nodes, index, "name"@) {
        Some(child) => tree::node_text(nodes, source, child) == Some(name),
        None => false,
    }
}

/// Whether a node or one of its ancestors is a test module or function.
pub open spec fn in_test(nodes: Seq<tree::NodeView>, source: Seq<u8>, index: int) -> bool
    decreases index,
{
    is_test_item(nodes, source, index) || match tree::parent(nodes, index) {
        Some(up) => 0 <= up < index && in_test(nodes, source, up),
        None => false,
    }
}

/// The first of the attributes immediately before a node, or the node itself.
pub open spec fn declaration_node(nodes: Seq<tree::NodeView>, index: int) -> int
    decreases index,
{
    match attribute_before(nodes, index) {
        Some(found) => if 0 <= found < index {
            declaration_node(nodes, found)
        } else {
            index
        },
        None => index,
    }
}

/// A declaration with its attributes and without its body.
pub open spec fn declaration(
    nodes: Seq<tree::NodeView>,
    source: Seq<u8>,
    index: int,
) -> Option<Seq<char>> {
    let start = nodes[declaration_node(nodes, index)].start_byte;
    let end = match tree::field_child(nodes, index, "body"@) {
        Some(body) => nodes[body].start_byte,
        None => nodes[index].end_byte,
    };
    match tree::source_range(source, start as int, end as int) {
        Some(range) => compact(range),
        None => None,
    }
}

/// The type of the nearest enclosing implementation block.
pub open spec fn impl_type(nodes: Seq<tree::NodeView>, source: Seq<u8>, index: int) -> Option<
    Seq<char>,
>
    decreases index,
{
    match tree::parent(nodes, index) {
        Some(up) => if 0 <= up < index {
            if nodes[up].kind == "impl_item"@ {
                match tree::field_child(nodes, up, "type"@) {
                    Some(child) => match tree::node_text(nodes, source, child) {
                        Some(name) => Some(text::trim(name)),
                        None => None,
                    },
                    None => None,
                }
            } else {
                impl_type(nodes, source, up)
            }
        } else {
            None
        },
        None => None,
    }
}

/// What a doc-comment line says.
pub open spec fn doc_line(line: Seq<u8>) -> Option<Seq<char>> {
    let shown = text::trim_start(text::lossy_utf8(line));
    if text::starts_with(shown, "///"@) {
        Some(text::trim(shown.skip("///"@.len() as int)))
    } else {
        None
    }
}

/// What the doc comment that ends right before a row says, line by line.
pub open spec fn doc_lines(rows: Seq<Seq<u8>>, row: int) -> Seq<Seq<char>>
    decreases row,
{
    if row <= 0 || row > rows.len() {
        seq![]
    } else {
        match doc_line(rows[row - 1]) {
            Some(line) => doc_lines(rows, row - 1).push(line),
            None => seq![],
        }
    }
}

/// The first sentence of a text, without its period; nothing where that is empty.
pub open spec fn first_sentence(documentation: Seq<char>) -> Option<Seq<char>> {
    let sentence = text::trim(documentation.take(text::find(documentation, '.')));
    if sentence.len() > 0 {
        Some(sentence)
    } else {
        None
    }
}

/// The first sentence of the doc comment right before a row.
pub open spec fn summary_before(source: Seq<u8>, row: int) -> Option<Seq<char>> {
    let rows = text::split(source, bytes::LINE_FEED);
    if row <= rows.len() {
        first_sentence(text::join(doc_lines(rows, row), " "@))
    } else {
        None
    }
}

/// The first sentence of the doc comment of a node.
pub open spec fn documentation(
    nodes: Seq<tree::NodeView>,
    source: Seq<u8>,
    index: int,
) -> Option<Seq<char>> {
    summary_before(source, nodes[declaration_node(nodes, index)].start_row as int)
}

/// Whether a declaration is public.
pub open spec fn is_public(nodes: Seq<tree::NodeView>, source: Seq<u8>, index: int) -> bool {
    match tree::node_text(nodes, source, index) {
        Some(shown) => text::starts_with(text::trim_start(shown), "pub "@),
        None => false,
    }
}

/// Remove all white space from a text.
fn spaceless(text: &str) -> (result: String)
    ensures
        result@ == without_space(text@),
{
    let chars = text::chars_of(text);
    let mut result = String::new();
    for i in 0..chars.len()
        invariant
            chars@ == text@,
            result@ == without_space(text@.take(i as int)),
    {
        assert(text@.take(i + 1).drop_last() =~= text@.take(i as int));
        if !text::space(chars[i]) {
            result.push(chars[i]);
        }
    }
    assert(text@.take(text@.len() as int) =~= text@);
    result
}

/// The attribute immediately before a node, if there is one.
fn attribute_of(syntax: &SyntaxTree, index: usize) -> (result: Option<usize>)
    requires
        index < syntax@.len(),
    ensures
        tree::optional_index(result) == attribute_before(syntax@, index as int),
        result matches Some(found) ==> found < index,
{
    match syntax.previous_named(index) {
        Some(found) => if syntax.has_kind(found, "attribute_item") {
            Some(found)
        } else {
            None
        },
        None => None,
    }
}

/// Check the attributes immediately preceding a declaration for test markers.
pub fn test_attribute(syntax: &SyntaxTree, source: &[u8], index: usize) -> (result: bool)
    requires
        index < syntax@.len(),
    ensures
        result == has_test_attribute(syntax@, source@, index as int),
{
    let mut current: usize = index;
    loop
        invariant
            current < syntax@.len(),
            has_test_attribute(syntax@, source@, index as int) == has_test_attribute(
                syntax@,
                source@,
                current as int,
            ),
        decreases current,
    {
        match attribute_of(syntax, current) {
            Some(found) => {
                let node = syntax.node(found);
                if let Some(range) = range_of(source, node.start_byte, node.end_byte) {
                    let shown = spaceless(&text::lossy_text(&range));
                    if text::has_text(&shown, "#[test]") || text::has_text(&shown, "::test]")
                        || text::has_text(&shown, "cfg(test)") {
                        return true;
                    }
                }
                current = found;
            },
            None => return false,
        }
    }
}

/// Check whether a node is enclosed by a conventional Rust test module or test attribute.
pub fn is_test_context(syntax: &SyntaxTree, source: &[u8], index: usize) -> (result: bool)
    requires
        index < syntax@.len(),
    ensures
        result == in_test(syntax@, source@, index as int),
{
    let mut current: usize = index;
    loop
        invariant
            current < syntax@.len(),
            in_test(syntax@, source@, index as int) == in_test(syntax@, source@, current as int),
        decreases current,
    {
        let module = syntax.has_kind(current, "mod_item");
        if module {
            if let Some(child) = syntax.field_child(current, "name") {
                if let Some(name) = syntax.text_of(source, child) {
                    if text::same_text(&name, "tests") {
                        return true;
                    }
                }
            }
        }
        if (module || syntax.has_kind(current, "function_item")) && test_attribute(
            syntax,
            source,
            current,
        ) {
            return true;
        }
        match syntax.parent(current) {
            Some(up) => {
                current = up;
            },
            None => return false,
        }
    }
}

/// Return the first attribute or declaration node.
pub fn first_declaration_node(syntax: &SyntaxTree, index: usize) -> (result: usize)
    requires
        index < syntax@.len(),
    ensures
        result == declaration_node(syntax@, index as int),
        result <= index,
{
    let mut current: usize = index;
    loop
        invariant
            current <= index < syntax@.len(),
            declaration_node(syntax@, index as int) == declaration_node(syntax@, current as int),
        decreases current,
    {
        match attribute_of(syntax, current) {
            Some(found) => {
                current = found;
            },
            None => return current,
        }
    }
}

/// Return a declaration without its body.
pub fn declaration_of(syntax: &SyntaxTree, source: &[u8], index: usize) -> (result: Option<String>)
    requires
        index < syntax@.len(),
    ensures
        text::optional_text(result) == declaration(syntax@, source@, index as int),
{
    let start = syntax.node(first_declaration_node(syntax, index)).start_byte;
    let end = match syntax.field_child(index, "body") {
        Some(body) => syntax.node(body).start_byte,
        None => syntax.node(index).end_byte,
    };
    match range_of(source, start, end) {
        Some(range) => compact_source(&range),
        None => None,
    }
}

/// Return the enclosing implementation type for a method.
pub fn enclosing_impl_type(syntax: &SyntaxTree, source: &[u8], index: usize) -> (result: Option<
    String,
>)
    requires
        index < syntax@.len(),
    ensures
        text::optional_text(result) == impl_type(syntax@, source@, index as int),
{
    let mut current: usize = index;
    loop
        invariant
            current < syntax@.len(),
            impl_type(syntax@, source@, index as int) == impl_type(
                syntax@,
                source@,
                current as int,
            ),
        decreases current,
    {
        match syntax.parent(current) {
            Some(up) => {
                if syntax.has_kind(up, "impl_item") {
                    return match syntax.field_child(up, "type") {
                        Some(child) => match syntax.text_of(source, child) {
                            Some(name) => Some(text::trimmed(&name)),
                            None => None,
                        },
                        None => None,
                    };
                }
                current = up;
            },
            None => return None,
        }
    }
}

/// What a doc-comment line says.
fn doc_line_of(line: &[u8]) -> (result: Option<String>)
    ensures
        text::optional_text(result) == doc_line(line@),
{
    let decoded = text::lossy_text(line);
    let shown = text::left_trimmed(&decoded);
    match text::after_prefix(&shown, "///") {
        Some(rest) => Some(text::trimmed(&rest)),
        None => None,
    }
}

/// The first sentence of the doc comment right before a row.
pub fn summary_before_row(source: &[u8], row: usize) -> (result: Option<String>)
    ensures
        text::optional_text(result) == summary_before(source@, row as int),
{
    let rows = bytes::split_bytes(source, bytes::LINE_FEED);
    let ghost views = bytes::blobs(rows@);
    assert(views.len() == rows@.len());
    if row > rows.len() {
        return None;
    }
    let mut start: usize = row;
    let mut searching: bool = true;
    while searching && start > 0
        invariant
            views == bytes::blobs(rows@),
            start <= row <= rows@.len(),
            forall|i: int| start <= i < row ==> doc_line(#[trigger] views[i]) is Some,
            !searching ==> start > 0 && doc_line(views[start - 1]) is None,
        decreases start + (if searching {
            1int
        } else {
            0int
        }),
    {
        assert(views[start - 1] == rows@[start - 1]@);
        if doc_line_of(&rows[start - 1]).is_some() {
            start = start - 1;
        } else {
            searching = false;
        }
    }
    let mut docs: Vec<String> = Vec::new();
    assert(doc_lines(views, start as int) =~= seq![]);
    assert(text::texts(docs@) =~= seq![]);
    for i in start..row
        invariant
            views == bytes::blobs(rows@),
            row <= rows@.len(),
            forall|j: int| start <= j < row ==> doc_line(#[trigger] views[j]) is Some,
            text::texts(docs@) == doc_lines(views, i as int),
    {
        assert(views[i as int] == rows@[i as int]@);
        if let Some(line) = doc_line_of(&rows[i]) {
            proof {
                text::lemma_texts_push(docs@, line);
            }
            docs.push(line);
        }
    }
    let documentation = text::joined(&docs, " ");
    let chars = text::chars_of(&documentation);
    proof {
        text::lemma_find(documentation@, '.');
        assert(chars@.skip(0) =~= documentation@);
    }
    let end = text::find_char(&chars, 0, '.');
    let sentence = text::text_between(&chars, 0, end);
    assert(sentence@ =~= documentation@.take(end as int));
    let summary = text::trimmed(&sentence);
    if summary.as_str().is_empty() {
        None
    } else {
        Some(summary)
    }
}

/// Return the first sentence of a declaration's immediately preceding doc comment.
pub fn doc_summary(syntax: &SyntaxTree, source: &[u8], index: usize) -> (result: Option<String>)
    requires
        index < syntax@.len(),
    ensures
        text::optional_text(result) == documentation(syntax@, source@, index as int),
{
    summary_before_row(source, syntax.node(first_declaration_node(syntax, index)).start_row)
}

/// Whether a declaration is public.
pub fn public_declaration(syntax: &SyntaxTree, source: &[u8], index: usize) -> (result: bool)
    requires
        index < syntax@.len(),
    ensures
        result == is_public(syntax@, source@, index as int),
{
    match syntax.text_of(source, index) {
        Some(shown) => text::after_prefix(&text::left_trimmed(&shown), "pub ").is_some(),
        None => false,
    }
}

/// Shown source is a part of the source, is not empty and stays short.
pub proof fn lemma_shown_source_is_part_of_the_source(source: Seq<u8>)
    ensures
        compact(source) matches Some(found) ==> found.len() > 0 && text::byte_len(found) <= 400
            && text::occurs(found, text::lossy_utf8(source)),
{
    let whole = text::lossy_utf8(source);
    let trimmed = text::trim(whole);
    let opened = trim_braces(trimmed);
    text::lemma_trimming_takes_only_white_space(whole);
    lemma_braces_stand_at_the_end(trimmed);
    text::lemma_trimming_takes_only_white_space(opened);
    text::lemma_parts_of_parts_occur(text::trim(opened), opened, trimmed);
    text::lemma_parts_of_parts_occur(text::trim(opened), trimmed, whole);
}

/// Short text without white space at its ends that does not open a block is shown as it is.
pub proof fn lemma_short_source_is_shown_as_it_is(source: Seq<u8>)
    requires
        text::lossy_utf8(source).len() > 0,
        !text::is_space(text::lossy_utf8(source)[0]),
        !text::is_space(text::lossy_utf8(source).last()),
        text::lossy_utf8(source).last() != '{',
        text::byte_len(text::lossy_utf8(source)) <= 400,
    ensures
        compact(source) == Some(text::lossy_utf8(source)),
{
    text::lemma_trimming_takes_only_white_space(text::lossy_utf8(source));
}

/// What stands before the brace that opens a block is shown without that brace.
#[verifier::rlimit(50)]
pub proof fn lemma_opening_braces_are_not_shown(source: Seq<u8>, shown: Seq<char>)
    requires
        shown.len() > 0,
        !text::is_space(shown[0]),
        !text::is_space(shown.last()),
        text::byte_len(shown) <= 400,
        text::lossy_utf8(source) == shown.push(' ').push('{'),
    ensures
        compact(source) == Some(shown),
{
    let whole = text::lossy_utf8(source);
    let blank = shown.push(' ');
    assert(text::trim(whole) == whole) by {
        text::lemma_trimming_takes_only_white_space(whole);
    }
    assert(text::trim(shown) == shown) by {
        text::lemma_trimming_takes_only_white_space(shown);
    }
    lemma_one_brace_is_left_out(blank);
    assert(blank.drop_last() =~= shown);
    assert(text::trim_end(blank) == text::trim_end(shown));
}

proof fn lemma_one_brace_is_left_out(text: Seq<char>)
    requires
        text.len() > 0,
        text.last() != '{',
    ensures
        trim_braces(text.push('{')) == text,
{
    assert(text.push('{').drop_last() =~= text);
    assert(trim_braces(text) == text);
}

proof fn lemma_braces_stand_at_the_end(text: Seq<char>)
    ensures
        text::occurs(trim_braces(text), text),
    decreases text.len(),
{
    if text.len() > 0 && text.last() == '{' {
        lemma_braces_stand_at_the_end(text.drop_last());
        text::lemma_occurs_within(trim_braces(text), seq![], text.drop_last(), seq!['{']);
        assert(seq![] + text.drop_last() + seq!['{'] =~= text);
    } else {
        text::lemma_occurs_in_itself(text);
    }
}

/// Documentation is made of all the doc comment lines directly above a row: each of them is one, and
/// the line above them is none.
pub proof fn lemma_documentation_is_the_comment_above(rows: Seq<Seq<u8>>, row: int)
    requires
        0 <= row <= rows.len(),
    ensures
        ({
            let lines = doc_lines(rows, row);
            &&& lines.len() <= row
            &&& forall|i: int|
                0 <= i < lines.len() ==> doc_line(rows[row - lines.len() + i]) == Some(
                    #[trigger] lines[i],
                )
            &&& lines.len() < row ==> doc_line(rows[row - lines.len() - 1]) is None
        }),
    decreases row,
{
    if row > 0 && doc_line(rows[row - 1]) is Some {
        lemma_documentation_is_the_comment_above(rows, row - 1);
        let before = doc_lines(rows, row - 1);
        let lines = doc_lines(rows, row);
        assert forall|i: int| 0 <= i < lines.len() implies doc_line(rows[row - lines.len() + i])
            == Some(#[trigger] lines[i]) by {
            if i < before.len() {
                assert(lines[i] == before[i]);
                assert(row - lines.len() + i == row - 1 - before.len() + i);
            }
        }
    }
}

/// The summary is the documentation up to its first full stop, which it does not hold.
pub proof fn lemma_summaries_end_at_the_first_full_stop(sentence: Seq<char>, more: Seq<char>)
    requires
        sentence.len() > 0,
        !text::is_space(sentence[0]),
        !text::is_space(sentence.last()),
        !sentence.contains('.'),
    ensures
        first_sentence(sentence) == Some(sentence),
        first_sentence(sentence + seq!['.'] + more) == Some(sentence),
{
    assert(text::trim(sentence) == sentence) by {
        text::lemma_trimming_takes_only_white_space(sentence);
    }
    assert(text::find(sentence, '.') == sentence.len()) by {
        text::lemma_find(sentence, '.');
    }
    assert(sentence.take(sentence.len() as int) =~= sentence);
    let whole = sentence + seq!['.'] + more;
    assert(text::find(whole, '.') == sentence.len()) by {
        text::lemma_find(whole, '.');
        let at = text::find(whole, '.');
        assert(whole[sentence.len() as int] == '.');
        if at < sentence.len() {
            assert(whole[at] == sentence[at]);
            assert(sentence.contains(sentence[at]));
        }
    }
    assert(whole.take(sentence.len() as int) =~= sentence);
}

/// What stands within a test item is a test, and nothing else is.
pub proof fn lemma_tests_hold_what_is_within_them(
    nodes: Seq<tree::NodeView>,
    source: Seq<u8>,
    index: int,
)
    ensures
        is_test_item(nodes, source, index) ==> in_test(nodes, source, index),
        tree::parent(nodes, index) matches Some(up) && 0 <= up < index && in_test(
            nodes,
            source,
            up,
        ) ==> in_test(nodes, source, index),
        in_test(nodes, source, index) ==> is_test_item(nodes, source, index) || (tree::parent(
            nodes,
            index,
        ) matches Some(up) && in_test(nodes, source, up)),
        nodes[index].kind == "mod_item"@ && named(nodes, source, index, "tests"@) ==> in_test(
            nodes,
            source,
            index,
        ),
        (nodes[index].kind == "mod_item"@ || nodes[index].kind == "function_item"@) && (
        attribute_before(nodes, index) matches Some(found) && marks_test(source, nodes[found]))
            ==> in_test(nodes, source, index),
{
}

/// A doc comment line is three slashes behind any white space; its text is what follows them.
pub proof fn lemma_doc_lines_follow_three_slashes(line: Seq<u8>, content: Seq<char>)
    ensures
        doc_line(line) is Some <==> text::trim_start(text::lossy_utf8(line)).len() >= 3
            && text::trim_start(text::lossy_utf8(line))[0] == '/' && text::trim_start(
            text::lossy_utf8(line),
        )[1] == '/' && text::trim_start(text::lossy_utf8(line))[2] == '/',
        text::trim_start(text::lossy_utf8(line)) == "///"@ + content ==> doc_line(line) == Some(
            text::trim(content),
        ),
{
    reveal_strlit("///");
    let shown = text::trim_start(text::lossy_utf8(line));
    if shown.len() >= 3 && shown[0] == '/' && shown[1] == '/' && shown[2] == '/' {
        assert(shown.take(3) =~= "///"@);
    }
    if text::starts_with(shown, "///"@) {
        assert(shown.take(3)[0] == shown[0] && shown.take(3)[1] == shown[1] && shown.take(3)[2]
            == shown[2]);
    }
    if shown == "///"@ + content {
        assert(shown.take(3) =~= "///"@);
        assert(shown.skip(3) =~= content);
    }
}

proof fn lemma_nothing_but_space_is_left_out(text: Seq<char>)
    requires
        forall|i: int| 0 <= i < text.len() ==> !text::is_space(#[trigger] text[i]),
    ensures
        without_space(text) == text,
    decreases text.len(),
{
    if text.len() > 0 {
        let rest = text.drop_last();
        assert forall|i: int| 0 <= i < rest.len() implies !text::is_space(#[trigger] rest[i]) by {
            assert(rest[i] == text[i]);
        }
        lemma_nothing_but_space_is_left_out(rest);
        assert(!text::is_space(text[text.len() - 1]));
        assert(without_space(text) =~= text);
    } else {
        assert(without_space(text) =~= text);
    }
}

/// An attribute without white space marks a test where it holds `#[test]`, ends a path with
/// `::test]`, or holds `cfg(test)`, and nowhere else.
pub proof fn lemma_test_attributes_mark_tests(source: Seq<u8>, attribute: tree::NodeView)
    requires
        attribute.start_byte <= attribute.end_byte <= source.len(),
        forall|i: int|
            0 <= i < text::lossy_utf8(
                source.subrange(attribute.start_byte as int, attribute.end_byte as int),
            ).len() ==> !text::is_space(
                #[trigger] text::lossy_utf8(
                    source.subrange(attribute.start_byte as int, attribute.end_byte as int),
                )[i],
            ),
    ensures
        ({
            let shown = text::lossy_utf8(
                source.subrange(attribute.start_byte as int, attribute.end_byte as int),
            );
            marks_test(source, attribute) <==> text::occurs("#[test]"@, shown) || text::occurs(
                "::test]"@,
                shown,
            ) || text::occurs("cfg(test)"@, shown)
        }),
{
    lemma_nothing_but_space_is_left_out(
        text::lossy_utf8(
            source.subrange(attribute.start_byte as int, attribute.end_byte as int),
        ),
    );
}

/// A declaration is part of the source from its first attribute on, and stops before the body.
pub proof fn lemma_declarations_stop_before_the_body(
    nodes: Seq<tree::NodeView>,
    source: Seq<u8>,
    index: int,
)
    ensures
        declaration(nodes, source, index) matches Some(shown) ==> {
            let start = nodes[declaration_node(nodes, index)].start_byte as int;
            let end = match tree::field_child(nodes, index, "body"@) {
                Some(body) => nodes[body].start_byte as int,
                None => nodes[index].end_byte as int,
            };
            &&& 0 <= start <= end <= source.len()
            &&& text::occurs(shown, text::lossy_utf8(source.subrange(start, end)))
            &&& shown.len() > 0
        },
{
    let start = nodes[declaration_node(nodes, index)].start_byte as int;
    let end = match tree::field_child(nodes, index, "body"@) {
        Some(body) => nodes[body].start_byte as int,
        None => nodes[index].end_byte as int,
    };
    if 0 <= start <= end <= source.len() {
        lemma_shown_source_is_part_of_the_source(source.subrange(start, end));
    }
}

/// The implementation type of a node is that of the nearest implementation around it.
pub proof fn lemma_implementation_types_are_the_nearest(
    nodes: Seq<tree::NodeView>,
    source: Seq<u8>,
    index: int,
    up: int,
)
    requires
        tree::parent(nodes, index) == Some(up),
        0 <= up < index,
    ensures
        nodes[up].kind != "impl_item"@ ==> impl_type(nodes, source, index) == impl_type(
            nodes,
            source,
            up,
        ),
        nodes[up].kind == "impl_item"@ ==> (tree::field_child(nodes, up, "type"@) matches Some(
            child,
        ) && (tree::node_text(nodes, source, child) matches Some(name)) ==> impl_type(
            nodes,
            source,
            index,
        ) == Some(text::trim(tree::node_text(nodes, source, tree::field_child(nodes, up, "type"@)->0)->0))),
{
}

} // verus!
