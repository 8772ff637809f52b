//! Definitions of a Rust source and the names that resolve to them.

use vstd::prelude::*;
use vstd::string::StringExecFns;

use crate::git::hunk;
use crate::git::hunk::LineRange;
use crate::syntax::source;
use crate::syntax::tree;
use crate::syntax::tree::{Capture, SyntaxTree};
use crate::text;

verus! {

/// The source bytes of a node, which tell definitions apart.
#[derive(Debug, Clone, Copy, PartialEq, Eq, Structural)]
pub struct Span {
    /// Index of the first byte.
    pub start: usize,
    /// Index past the last byte.
    pub end: usize,
}

/// A definition that the tag query identified.
pub struct Definition {
    /// Source bytes of the definition.
    pub span: Span,
    /// Declared name.
    pub name: String,
    /// Qualified callable name.
    pub label: String,
    /// Declaration without its body.
    pub declaration: String,
    /// Zero-based start row.
    pub start_row: usize,
    /// Zero-based end row.
    pub end_row: usize,
    /// Whether the definition is a direct callable.
    pub callable: bool,
    /// Whether the callable is publicly visible.
    pub public: bool,
    /// Brief preceding doc comment, if any.
    pub documentation: Option<String>,
    /// Enclosing implementation type for methods.
    pub impl_type: Option<String>,
}

/// What a [`Definition`] holds.
pub ghost struct DefinitionView {
    pub span: Span,
    pub name: Seq<char>,
    pub label: Seq<char>,
    pub declaration: Seq<char>,
    pub start_row: usize,
    pub end_row: usize,
    pub callable: bool,
    pub public: bool,
    pub documentation: Option<Seq<char>>,
    pub impl_type: Option<Seq<char>>,
}

impl View for Definition {
    type V = DefinitionView;

    open spec fn view(&self) -> DefinitionView {
        DefinitionView {
            span: self.span,
            name: self.name@,
            label: self.label@,
            declaration: self.declaration@,
            start_row: self.start_row,
            end_row: self.end_row,
            callable: self.callable,
            public: self.public,
            documentation: text::optional_text(self.documentation),
            impl_type: text::optional_text(self.impl_type),
        }
    }
}

/// What a sequence of definitions holds.
pub open spec fn definition_views(definitions: Seq<Definition>) -> Seq<DefinitionView> {
    definitions.map_values(|definition: Definition| definition@)
}

/// The source bytes of a node.
pub open spec fn node_span(node: tree::NodeView) -> Span {
    Span { start: node.start_byte, end: node.end_byte }
}

/// The first capture with the given name.
pub open spec fn capture_named(captures: Seq<tree::CaptureView>, name: Seq<char>) -> Option<
    tree::CaptureView,
>
    decreases captures.len(),
{
    if captures.len() == 0 {
        None
    } else if captures[0].name == name {
        Some(captures[0])
    } else {
        capture_named(captures.skip(1), name)
    }
}

/// The first capture of a definition.
pub open spec fn definition_capture(captures: Seq<tree::CaptureView>) -> Option<tree::CaptureView>
    decreases captures.len(),
{
    if captures.len() == 0 {
        None
    } else if text::starts_with(captures[0].name, "definition."@) {
        Some(captures[0])
    } else {
        definition_capture(captures.skip(1))
    }
}

/// The source text of a capture, where it is UTF-8.
pub open spec fn captured_text(source: Seq<u8>, capture: tree::CaptureView) -> Option<Seq<char>> {
    tree::range_text(source, capture.start_byte as int, capture.end_byte as int)
}

/// A callable name qualified with its enclosing implementation type.
pub open spec fn label(impl_type: Option<Seq<char>>, name: Seq<char>) -> Seq<char> {
    match impl_type {
        Some(owner) => owner + "::"@ + name,
        None => name,
    }
}

/// The definition that one match of the tag query identifies.
pub open spec fn matched_definition(
    nodes: Seq<tree::NodeView>,
    source: Seq<u8>,
    captures: Seq<tree::CaptureView>,
) -> Option<DefinitionView> {
    match (definition_capture(captures), capture_named(captures, "name"@)) {
        (Some(definition), Some(name)) => match (
            captured_text(source, name),
            tree::located(nodes, definition),
        ) {
            (Some(name), Some(index)) => match source::declaration(nodes, source, index) {
                Some(declaration) => {
                    let impl_type = source::impl_type(nodes, source, index);
                    Some(
                        DefinitionView {
                            span: node_span(nodes[index]),
                            name,
                            label: label(impl_type, name),
                            declaration,
                            start_row: nodes[index].start_row,
                            end_row: nodes[index].end_row,
                            callable: definition.name == "definition.function"@ || definition.name
                                == "definition.method"@,
                            public: source::is_public(nodes, source, index),
                            documentation: source::documentation(nodes, source, index),
                            impl_type,
                        },
                    )
                },
                None => None,
            },
            _ => None,
        },
        _ => None,
    }
}

/// Index of the definition with a span, or the length where there is none.
pub open spec fn position(definitions: Seq<DefinitionView>, span: Span) -> int
    decreases definitions.len(),
{
    if definitions.len() == 0 || definitions[0].span == span {
        0
    } else {
        1 + position(definitions.skip(1), span)
    }
}

/// The definition with a span.
pub open spec fn lookup(definitions: Seq<DefinitionView>, span: Span) -> Option<DefinitionView> {
    if position(definitions, span) < definitions.len() {
        Some(definitions[position(definitions, span)])
    } else {
        None
    }
}

/// Definitions with one more: it replaces the one with the same span.
pub open spec fn with_definition(
    definitions: Seq<DefinitionView>,
    definition: DefinitionView,
) -> Seq<DefinitionView> {
    let at = position(definitions, definition.span);
    if at < definitions.len() {
        definitions.update(at, definition)
    } else {
        definitions.push(definition)
    }
}

/// The definitions that the matches of the tag query identify, one for each span.
pub open spec fn all_definitions(
    nodes: Seq<tree::NodeView>,
    source: Seq<u8>,
    matches: Seq<Seq<tree::CaptureView>>,
) -> Seq<DefinitionView>
    decreases matches.len(),
{
    if matches.len() == 0 {
        seq![]
    } else {
        let before = all_definitions(nodes, source, matches.drop_last());
        match matched_definition(nodes, source, matches.last()) {
            Some(definition) => with_definition(before, definition),
            None => before,
        }
    }
}

/// Whether no two definitions have the same span.
pub open spec fn spans_differ(definitions: Seq<DefinitionView>) -> bool {
    forall|i: int, j: int|
        0 <= i < j < definitions.len() ==> (#[trigger] definitions[i]).span != (
        #[trigger] definitions[j]).span
}

/// The position of a span is that of the first definition with it.
pub proof fn lemma_position(definitions: Seq<DefinitionView>, span: Span)
    ensures
        0 <= position(definitions, span) <= definitions.len(),
        position(definitions, span) < definitions.len() ==> definitions[position(
            definitions,
            span,
        )].span == span,
        forall|i: int| 0 <= i < position(definitions, span) ==> (#[trigger] definitions[i]).span != span,
    decreases definitions.len(),
{
    if definitions.len() > 0 && definitions[0].span != span {
        lemma_position(definitions.skip(1), span);
        assert forall|i: int| 0 <= i < position(definitions, span) implies (
        #[trigger] definitions[i]).span != span by {
            if i > 0 {
                assert(definitions.skip(1)[i - 1] == definitions[i]);
            }
        }
    }
}

/// No two definitions of a source have the same span.
pub proof fn lemma_definitions_have_their_own_spans(
    nodes: Seq<tree::NodeView>,
    source: Seq<u8>,
    matches: Seq<Seq<tree::CaptureView>>,
)
    ensures
        spans_differ(all_definitions(nodes, source, matches)),
    decreases matches.len(),
{
    if matches.len() > 0 {
        lemma_definitions_have_their_own_spans(nodes, source, matches.drop_last());
        let before = all_definitions(nodes, source, matches.drop_last());
        if let Some(definition) = matched_definition(nodes, source, matches.last()) {
            lemma_position(before, definition.span);
        }
    }
}

/// Index of the first capture with the given name.
pub fn find_capture(captures: &[Capture], name: &str) -> (result: Option<usize>)
    ensures
        match result {
            Some(index) => index < captures@.len() && capture_named(
                tree::capture_views(captures@),
                name@,
            ) == Some(captures@[index as int]@),
            None => capture_named(tree::capture_views(captures@), name@) is None,
        },
{
    let ghost views = tree::capture_views(captures@);
    assert(views.skip(0) =~= views);
    for index in 0..captures.len()
        invariant
            views == tree::capture_views(captures@),
            capture_named(views.skip(index as int), name@) == capture_named(views, name@),
    {
        assert(views.skip(index as int)[0] == captures@[index as int]@);
        assert(views.skip(index as int).skip(1) =~= views.skip(index + 1));
        if text::same_text(&captures[index].name, name) {
            return Some(index);
        }
    }
    None
}

/// Index of the first capture of a definition.
fn find_definition(captures: &[Capture]) -> (result: Option<usize>)
    ensures
        match result {
            Some(index) => index < captures@.len() && definition_capture(
                tree::capture_views(captures@),
            ) == Some(captures@[index as int]@),
            None => definition_capture(tree::capture_views(captures@)) is None,
        },
{
    let ghost views = tree::capture_views(captures@);
    assert(views.skip(0) =~= views);
    for index in 0..captures.len()
        invariant
            views == tree::capture_views(captures@),
            definition_capture(views.skip(index as int)) == definition_capture(views),
    {
        assert(views.skip(index as int)[0] == captures@[index as int]@);
        assert(views.skip(index as int).skip(1) =~= views.skip(index + 1));
        if text::after_prefix(&captures[index].name, "definition.").is_some() {
            return Some(index);
        }
    }
    None
}

/// The source text of a capture, where it is UTF-8.
pub fn capture_text(source: &[u8], capture: &Capture) -> (result: Option<String>)
    ensures
        text::optional_text(result) == captured_text(source@, capture@),
{
    tree::range_text_of(source, capture.start_byte, capture.end_byte)
}

/// Return a callable name qualified with its enclosing implementation type.
pub fn callable_label(impl_type: &Option<String>, name: &str) -> (result: String)
    ensures
        result@ == label(text::optional_text(*impl_type), name@),
{
    match impl_type {
        Some(owner) => {
            let mut result = owner.clone();
            result.append("::");
            result.append(name);
            result
        },
        None => name.to_owned(),
    }
}

/// The definition that one match of the tag query identifies.
fn definition_of(syntax: &SyntaxTree, source: &[u8], captures: &[Capture]) -> (result: Option<
    Definition,
>)
    ensures
        match result {
            Some(definition) => matched_definition(
                syntax@,
                source@,
                tree::capture_views(captures@),
            ) == Some(definition@),
            None => matched_definition(syntax@, source@, tree::capture_views(captures@)) is None,
        },
{
    let found = find_definition(captures);
    let named = find_capture(captures, "name");
    match (found, named) {
        (Some(definition), Some(name)) => {
            let capture = &captures[definition];
            let name = capture_text(source, &captures[name]);
            match (name, syntax.located(capture)) {
                (Some(name), Some(index)) => {
                    let node = syntax.node(index);
                    match source::declaration_of(syntax, source, index) {
                        Some(declaration) => {
                            let impl_type = source::enclosing_impl_type(syntax, source, index);
                            Some(
                                Definition {
                                    span: Span { start: node.start_byte, end: node.end_byte },
                                    label: callable_label(&impl_type, &name),
                                    name,
                                    declaration,
                                    start_row: node.start_row,
                                    end_row: node.end_row,
                                    callable: text::same_text(&capture.name, "definition.function")
                                        || text::same_text(&capture.name, "definition.method"),
                                    public: source::public_declaration(syntax, source, index),
                                    documentation: source::doc_summary(syntax, source, index),
                                    impl_type,
                                },
                            )
                        },
                        None => None,
                    }
                },
                _ => None,
            }
        },
        _ => None,
    }
}

/// Index of the definition with a span.
pub fn find_span(definitions: &[Definition], span: Span) -> (result: Option<usize>)
    ensures
        match result {
            Some(index) => index < definitions@.len() && index == position(
                definition_views(definitions@),
                span,
            ) && lookup(definition_views(definitions@), span) == Some(
                definitions@[index as int]@,
            ),
            None => position(definition_views(definitions@), span) == definitions@.len() && lookup(
                definition_views(definitions@),
                span,
            ) is None,
        },
{
    let ghost views = definition_views(definitions@);
    assert(views.skip(0) =~= views);
    for index in 0..definitions.len()
        invariant
            views == definition_views(definitions@),
            position(views, span) == index + position(views.skip(index as int), span),
    {
        assert(views.skip(index as int)[0] == definitions@[index as int]@);
        assert(views.skip(index as int).skip(1) =~= views.skip(index + 1));
        if definitions[index].span == span {
            return Some(index);
        }
    }
    None
}

/// Index Rust definitions from the matches of the grammar's tag query.
pub fn definitions(syntax: &SyntaxTree, source: &[u8], matches: &[Vec<Capture>]) -> (result: Vec<
    Definition,
>)
    ensures
        definition_views(result@) == all_definitions(syntax@, source@, tree::match_views(matches@)),
{
    let mut result: Vec<Definition> = Vec::new();
    let ghost views = tree::match_views(matches@);
    assert(definition_views(result@) =~= seq![]);
    for i in 0..matches.len()
        invariant
            views == tree::match_views(matches@),
            definition_views(result@) == all_definitions(syntax@, source@, views.take(i as int)),
    {
        assert(views.take(i + 1).drop_last() =~= views.take(i as int));
        assert(views.take(i + 1).last() == tree::capture_views(matches@[i as int]@));
        let ghost before = definition_views(result@);
        if let Some(definition) = definition_of(syntax, source, &matches[i]) {
            let ghost added = definition@;
            match find_span(&result, definition.span) {
                Some(at) => {
                    result.set(at, definition);
                    assert(definition_views(result@) =~= before.update(at as int, added));
                },
                None => {
                    result.push(definition);
                    assert(definition_views(result@) =~= before.push(added));
                },
            }
        }
    }
    assert(views.take(matches@.len() as int) =~= views);
    result
}

/// Whether a definition overlaps any changed source line.
pub open spec fn is_changed(definition: DefinitionView, ranges: Seq<LineRange>) -> bool {
    hunk::rows_meet(definition.start_row as int, definition.end_row as int, ranges)
}

/// Check whether a definition overlaps any changed source line.
pub fn overlaps_changed_lines(definition: &Definition, ranges: &[LineRange]) -> (result: bool)
    ensures
        result == is_changed(definition@, ranges@),
{
    hunk::overlaps_rows(definition.start_row, definition.end_row, ranges)
}

/// Whether a definition is a callable that a call resolves by this name: a method of `owner`,
/// or a free function where there is none.
pub open spec fn is_callable_named(
    definition: DefinitionView,
    owner: Option<Seq<char>>,
    name: Seq<char>,
) -> bool {
    definition.callable && definition.impl_type == owner && definition.name == name
}

/// The callables that have a name.
pub open spec fn callables_named(
    definitions: Seq<DefinitionView>,
    owner: Option<Seq<char>>,
    name: Seq<char>,
) -> Seq<DefinitionView>
    decreases definitions.len(),
{
    if definitions.len() == 0 {
        seq![]
    } else {
        let before = callables_named(definitions.drop_last(), owner, name);
        if is_callable_named(definitions.last(), owner, name) {
            before.push(definitions.last())
        } else {
            before
        }
    }
}

/// The span that a call name resolves to: that of the only callable with the name.
pub open spec fn resolved(
    definitions: Seq<DefinitionView>,
    owner: Option<Seq<char>>,
    name: Seq<char>,
) -> Option<Span> {
    let named = callables_named(definitions, owner, name);
    if named.len() == 1 {
        Some(named[0].span)
    } else {
        None
    }
}

/// Whether two optional texts are equal.
pub fn same_optional(left: &Option<String>, right: &Option<String>) -> (result: bool)
    ensures
        result == (text::optional_text(*left) == text::optional_text(*right)),
{
    match (left, right) {
        (Some(left), Some(right)) => text::same_text(left, right),
        (None, None) => true,
        _ => false,
    }
}

/// Resolve a free function, or a method within an implementation, that is the only one with its
/// name.
pub fn resolve_callable(definitions: &[Definition], owner: &Option<String>, name: &str) -> (result:
    Option<Span>)
    ensures
        result == resolved(
            definition_views(definitions@),
            text::optional_text(*owner),
            name@,
        ),
{
    let ghost views = definition_views(definitions@);
    let ghost key = text::optional_text(*owner);
    let mut found: Option<Span> = None;
    let mut ambiguous: bool = false;
    for i in 0..definitions.len()
        invariant
            views == definition_views(definitions@),
            key == text::optional_text(*owner),
            ambiguous == (callables_named(views.take(i as int), key, name@).len() > 1),
            !ambiguous ==> found == resolved(views.take(i as int), key, name@),
    {
        assert(views.take(i + 1).drop_last() =~= views.take(i as int));
        assert(views.take(i + 1).last() == definitions@[i as int]@);
        let definition = &definitions[i];
        if definition.callable && same_optional(&definition.impl_type, owner) && text::same_text(
            &definition.name,
            name,
        ) {
            match found {
                Some(_) => ambiguous = true,
                None => found = Some(definition.span),
            }
        }
    }
    assert(views.take(definitions@.len() as int) =~= views);
    if ambiguous {
        None
    } else {
        found
    }
}

/// A definition is changed exactly where one of its lines is a line of a changed range: its lines
/// run from the one past its first row to the one past its last row.
pub proof fn lemma_definitions_change_with_their_lines(
    definition: DefinitionView,
    ranges: Seq<LineRange>,
)
    requires
        definition.start_row <= definition.end_row,
        forall|i: int| 0 <= i < ranges.len() ==> hunk::holds_lines(#[trigger] ranges[i]),
    ensures
        is_changed(definition, ranges) <==> exists|row: int|
            definition.start_row <= row <= definition.end_row && #[trigger] hunk::row_in(
                row,
                ranges,
            ),
        is_changed(definition, ranges) <==> exists|i: int, line: int|
            0 <= i < ranges.len() && #[trigger] hunk::has_line(ranges[i], line)
                && definition.start_row + 1 <= line <= definition.end_row + 1,
{
    hunk::lemma_rows_meet_where_a_row_is_changed(
        definition.start_row as int,
        definition.end_row as int,
        ranges,
    );
}

/// Whether some capture has the given name and stands for the given source text.
pub open spec fn captures_text(
    source: Seq<u8>,
    captures: Seq<tree::CaptureView>,
    name: Seq<char>,
    captured: Seq<char>,
) -> bool {
    exists|i: int|
        0 <= i < captures.len() && (#[trigger] captures[i]).name == name && is_source_text(
            source,
            captures[i].start_byte as int,
            captures[i].end_byte as int,
            captured,
        )
}

/// Whether the source bytes from `start` to `end` are the UTF-8 bytes of a text.
pub open spec fn is_source_text(
    source: Seq<u8>,
    start: int,
    end: int,
    text: Seq<char>,
) -> bool {
    0 <= start <= end <= source.len() && vstd::utf8::valid_utf8(source.subrange(start, end))
        && vstd::utf8::decode_utf8(source.subrange(start, end)) == text
}

/// Whether no two captures have the same name.
pub open spec fn have_own_names(captures: Seq<tree::CaptureView>) -> bool {
    forall|i: int, j: int|
        0 <= i < j < captures.len() ==> (#[trigger] captures[i]).name != (
        #[trigger] captures[j]).name
}

/// The capture with a name is the first that has it, if any has.
pub proof fn lemma_capture_named(captures: Seq<tree::CaptureView>, name: Seq<char>)
    ensures
        match capture_named(captures, name) {
            Some(capture) => exists|i: int|
                0 <= i < captures.len() && #[trigger] captures[i] == capture && capture.name
                    == name,
            None => forall|i: int| 0 <= i < captures.len() ==> (#[trigger] captures[i]).name
                != name,
        },
    decreases captures.len(),
{
    if captures.len() > 0 && captures[0].name != name {
        let rest = captures.skip(1);
        lemma_capture_named(rest, name);
        match capture_named(rest, name) {
            Some(capture) => {
                let i = choose|i: int|
                    0 <= i < rest.len() && #[trigger] rest[i] == capture && capture.name == name;
                assert(captures[i + 1] == capture);
            },
            None => {
                assert forall|i: int| 0 <= i < captures.len() implies (
                #[trigger] captures[i]).name != name by {
                    if i > 0 {
                        assert(captures[i] == rest[i - 1]);
                    }
                }
            },
        }
    } else if captures.len() > 0 {
        assert(captures[0].name == name);
    }
}

/// A span is known exactly where a match gives a definition with it; where only one match does, that
/// is the definition.
pub proof fn lemma_every_matched_definition_is_known(
    nodes: Seq<tree::NodeView>,
    source: Seq<u8>,
    matches: Seq<Seq<tree::CaptureView>>,
    span: Span,
)
    ensures
        lookup(all_definitions(nodes, source, matches), span) is Some <==> exists|m: int|
            0 <= m < matches.len() && (matched_definition(
                nodes,
                source,
                #[trigger] matches[m],
            ) matches Some(found) && found.span == span),
        lookup(all_definitions(nodes, source, matches), span) matches Some(definition) ==> exists|
            m: int,
        |
            0 <= m < matches.len() && matched_definition(nodes, source, #[trigger] matches[m])
                == Some(definition),
    decreases matches.len(),
{
    let all = all_definitions(nodes, source, matches);
    lemma_position(all, span);
    if matches.len() > 0 {
        let rest = matches.drop_last();
        lemma_every_matched_definition_is_known(nodes, source, rest, span);
        let before = all_definitions(nodes, source, rest);
        let last = matched_definition(nodes, source, matches.last());
        lemma_position(before, span);
        assert(matches[matches.len() - 1] == matches.last());
        if let Some(added) = last {
            lemma_position(before, added.span);
            if added.span == span {
                assert(exists|i: int| 0 <= i < all.len() && (#[trigger] all[i]).span == span) by {
                    let at = position(before, span);
                    assert(all[at].span == span);
                }
                let i = choose|i: int| 0 <= i < all.len() && (#[trigger] all[i]).span == span;
                assert(position(all, span) <= i);
                assert(lookup(all, span) == Some(added)) by {
                    let at = position(before, span);
                    assert(all[at] == added);
                    assert forall|j: int| 0 <= j < at implies (#[trigger] all[j]).span != span by {
                        assert(all[j] == before[j]);
                    }
                    assert(position(all, span) == at);
                }
            } else {
                lemma_lookup_keeps_others(before, added, span);
            }
        }
        if lookup(before, span) is Some && last != Some(lookup(all, span)->0) {
            let m = choose|m: int|
                0 <= m < rest.len() && matched_definition(nodes, source, #[trigger] rest[m])
                    == Some(lookup(before, span)->0);
            assert(matches[m] == rest[m]);
        }
        if exists|m: int|
            0 <= m < matches.len() && (matched_definition(
                nodes,
                source,
                #[trigger] matches[m],
            ) matches Some(found) && found.span == span) {
            let m = choose|m: int|
                0 <= m < matches.len() && (matched_definition(
                    nodes,
                    source,
                    #[trigger] matches[m],
                ) matches Some(found) && found.span == span);
            if m < rest.len() {
                assert(rest[m] == matches[m]);
            }
        }
    }
}

proof fn lemma_lookup_keeps_others(
    definitions: Seq<DefinitionView>,
    added: DefinitionView,
    span: Span,
)
    requires
        added.span != span,
    ensures
        lookup(with_definition(definitions, added), span) == lookup(definitions, span),
{
    let after = with_definition(definitions, added);
    lemma_position(definitions, added.span);
    lemma_position(definitions, span);
    lemma_position(after, span);
    let at = position(definitions, span);
    let found = position(after, span);
    if at < definitions.len() {
        assert(after[at].span == span);
        if found < at {
            assert(after[found].span == span);
            assert(definitions[found].span != span);
        }
    } else if found < after.len() {
        assert(after[found].span == span);
        if found < definitions.len() && after[found] != definitions[found] {
            assert(after[found] == added);
        }
    }
}

/// A name resolves exactly where one callable has it, and to that one: a free function has no
/// implementation type.
pub proof fn lemma_names_resolve_to_the_only_callable(
    definitions: Seq<DefinitionView>,
    owner: Option<Seq<char>>,
    name: Seq<char>,
    i: int,
)
    requires
        0 <= i < definitions.len(),
        definitions[i].callable,
        definitions[i].impl_type == owner,
        definitions[i].name == name,
    ensures
        (forall|j: int|
            0 <= j < definitions.len() && j != i ==> !((#[trigger] definitions[j]).callable
                && definitions[j].impl_type == owner && definitions[j].name == name)) ==> resolved(
            definitions,
            owner,
            name,
        ) == Some(definitions[i].span),
        (exists|j: int|
            0 <= j < definitions.len() && j != i && (#[trigger] definitions[j]).callable
                && definitions[j].impl_type == owner && definitions[j].name == name) ==> resolved(
            definitions,
            owner,
            name,
        ) is None,
{
    lemma_callables_named(definitions, owner, name, i);
    if exists|j: int|
        0 <= j < definitions.len() && j != i && (#[trigger] definitions[j]).callable
            && definitions[j].impl_type == owner && definitions[j].name == name {
        let j = choose|j: int|
            0 <= j < definitions.len() && j != i && (#[trigger] definitions[j]).callable
                && definitions[j].impl_type == owner && definitions[j].name == name;
        lemma_two_callables_named(definitions, owner, name, i, j);
    }
}

proof fn lemma_callables_named(
    definitions: Seq<DefinitionView>,
    owner: Option<Seq<char>>,
    name: Seq<char>,
    i: int,
)
    requires
        0 <= i < definitions.len(),
        is_callable_named(definitions[i], owner, name),
    ensures
        callables_named(definitions, owner, name).contains(definitions[i]),
        (forall|j: int|
            0 <= j < definitions.len() && j != i ==> !is_callable_named(
                #[trigger] definitions[j],
                owner,
                name,
            )) ==> callables_named(definitions, owner, name) == seq![definitions[i]],
    decreases definitions.len(),
{
    let rest = definitions.drop_last();
    let before = callables_named(rest, owner, name);
    let all = callables_named(definitions, owner, name);
    if i == definitions.len() - 1 {
        assert(all[before.len() as int] == definitions[i]);
        if forall|j: int|
            0 <= j < definitions.len() && j != i ==> !is_callable_named(
                #[trigger] definitions[j],
                owner,
                name,
            ) {
            assert forall|j: int| 0 <= j < rest.len() implies !is_callable_named(
                #[trigger] rest[j],
                owner,
                name,
            ) by {
                assert(rest[j] == definitions[j]);
            }
            lemma_no_callables_named(rest, owner, name);
            assert(all =~= seq![definitions[i]]);
        }
    } else {
        assert(rest[i] == definitions[i]);
        lemma_callables_named(rest, owner, name, i);
        let at = choose|at: int| 0 <= at < before.len() && before[at] == definitions[i];
        assert(all[at] == definitions[i]);
        if forall|j: int|
            0 <= j < definitions.len() && j != i ==> !is_callable_named(
                #[trigger] definitions[j],
                owner,
                name,
            ) {
            assert forall|j: int| 0 <= j < rest.len() && j != i implies !is_callable_named(
                #[trigger] rest[j],
                owner,
                name,
            ) by {
                assert(rest[j] == definitions[j]);
            }
            assert(!is_callable_named(definitions[definitions.len() - 1], owner, name));
        }
    }
}

proof fn lemma_no_callables_named(
    definitions: Seq<DefinitionView>,
    owner: Option<Seq<char>>,
    name: Seq<char>,
)
    requires
        forall|j: int|
            0 <= j < definitions.len() ==> !is_callable_named(
                #[trigger] definitions[j],
                owner,
                name,
            ),
    ensures
        callables_named(definitions, owner, name).len() == 0,
    decreases definitions.len(),
{
    if definitions.len() > 0 {
        let rest = definitions.drop_last();
        assert forall|j: int| 0 <= j < rest.len() implies !is_callable_named(
            #[trigger] rest[j],
            owner,
            name,
        ) by {
            assert(rest[j] == definitions[j]);
        }
        lemma_no_callables_named(rest, owner, name);
        assert(!is_callable_named(definitions[definitions.len() - 1], owner, name));
    }
}

proof fn lemma_two_callables_named(
    definitions: Seq<DefinitionView>,
    owner: Option<Seq<char>>,
    name: Seq<char>,
    i: int,
    j: int,
)
    requires
        0 <= i < definitions.len(),
        0 <= j < definitions.len(),
        i != j,
        is_callable_named(definitions[i], owner, name),
        is_callable_named(definitions[j], owner, name),
    ensures
        callables_named(definitions, owner, name).len() >= 2,
    decreases definitions.len(),
{
    let rest = definitions.drop_last();
    let last = definitions.len() - 1;
    if i == last {
        assert(rest[j] == definitions[j]);
        lemma_callables_named(rest, owner, name, j);
    } else if j == last {
        assert(rest[i] == definitions[i]);
        lemma_callables_named(rest, owner, name, i);
    } else {
        assert(rest[i] == definitions[i] && rest[j] == definitions[j]);
        lemma_two_callables_named(rest, owner, name, i, j);
    }
}

/// The label of an associated function names its implementation type and the function; that of a free
/// function is its name.
pub proof fn lemma_labels_name_the_owner(owner: Seq<char>, name: Seq<char>)
    ensures
        text::starts_with(label(Some(owner), name), owner + "::"@),
        text::ends_with(label(Some(owner), name), name),
        label(Some(owner), name).len() == owner.len() + 2 + name.len(),
        label(None, name) == name,
{
    let whole = label(Some(owner), name);
    let start = owner + "::"@;
    reveal_strlit("::");
    assert(whole.take(start.len() as int) =~= start);
    assert(whole.skip(whole.len() - name.len()) =~= name);
}

/// A match defines what its captures stand for: the name is the captured one, the rows and bytes are
/// those of the captured node, and functions and methods are what can be called.
pub proof fn lemma_matches_define_what_they_capture(
    nodes: Seq<tree::NodeView>,
    source: Seq<u8>,
    captures: Seq<tree::CaptureView>,
)
    ensures
        matched_definition(nodes, source, captures) matches Some(definition) ==> {
            &&& captures_text(source, captures, "name"@, definition.name)
            &&& definition_capture(captures) matches Some(capture) && (definition.callable <==> (
            capture.name == "definition.function"@ || capture.name == "definition.method"@)) && (
            tree::located(nodes, capture) matches Some(index) && definition.start_row
                == nodes[index].start_row && definition.end_row == nodes[index].end_row
                && definition.span.start == nodes[index].start_byte && definition.span.end
                == nodes[index].end_byte && definition.label == label(
                definition.impl_type,
                definition.name,
            ) && definition.impl_type == source::impl_type(nodes, source, index)
                && definition.public == source::is_public(nodes, source, index)
                && definition.documentation == source::documentation(nodes, source, index))
        },
{
    lemma_capture_named(captures, "name"@);
    if let Some(definition) = matched_definition(nodes, source, captures) {
        let capture = capture_named(captures, "name"@)->0;
        let i = choose|i: int|
            0 <= i < captures.len() && #[trigger] captures[i] == capture && capture.name
                == "name"@;
        assert(captures[i].name == "name"@);
        assert(is_source_text(
            source,
            captures[i].start_byte as int,
            captures[i].end_byte as int,
            definition.name,
        ));
    }
}

} // verus!
