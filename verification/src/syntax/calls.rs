//! Direct calls within one Rust source, followed back to public entry points.

use vstd::prelude::*;

use crate::git::hunk;
use crate::git::hunk::LineRange;
use crate::syntax::definitions;
use crate::syntax::definitions::{Definition, Span};
use crate::syntax::source;
use crate::syntax::tree;
use crate::syntax::tree::{Capture, SyntaxTree};
use crate::text;

verus! {

/// Maximum public entry points shown for one changed callable.
pub const MAX_ENTRY_POINTS_PER_CALLABLE: usize = 3;

/// Maximum private-call depth followed to reach an entry point.
pub const MAX_CALL_DEPTH: usize = 4;

/// A direct call from one callable to another.
#[derive(Debug, Clone, Copy, PartialEq, Eq, Structural)]
pub struct CallEdge {
    /// The called definition.
    pub target: Span,
    /// The calling definition.
    pub caller: Span,
    /// Index of the call's first byte.
    pub at: usize,
}

/// An unchanged public entry point affected by a changed callable.
#[derive(Debug, Clone, PartialEq, Eq)]
pub struct EntryPoint {
    /// Qualified public function or method reached through the call path.
    pub name: String,
    /// Brief documentation for the entry point, when available.
    pub documentation: Option<String>,
    /// Private helpers between the entry point and changed callable.
    pub via: Vec<String>,
}

/// What an [`EntryPoint`] holds.
pub ghost struct EntryPointView {
    pub name: Seq<char>,
    pub documentation: Option<Seq<char>>,
    pub via: Seq<Seq<char>>,
}

impl View for EntryPoint {
    type V = EntryPointView;

    open spec fn view(&self) -> EntryPointView {
        EntryPointView {
            name: self.name@,
            documentation: text::optional_text(self.documentation),
            via: text::texts(self.via@),
        }
    }
}

/// What a sequence of entry points holds.
pub open spec fn entry_point_views(points: Seq<EntryPoint>) -> Seq<EntryPointView> {
    points.map_values(|point: EntryPoint| point@)
}

/// The callable definition that encloses a node.
pub open spec fn enclosing(
    nodes: Seq<tree::NodeView>,
    definitions: Seq<definitions::DefinitionView>,
    index: int,
) -> Option<definitions::DefinitionView>
    decreases index,
{
    match tree::parent(nodes, index) {
        Some(up) => if 0 <= up < index {
            match definitions::lookup(definitions, definitions::node_span(nodes[up])) {
                Some(definition) => if definition.callable {
                    Some(definition)
                } else {
                    enclosing(nodes, definitions, up)
                },
                None => enclosing(nodes, definitions, up),
            }
        } else {
            None
        },
        None => None,
    }
}

/// Whether a field expression has `self` as its receiver.
pub open spec fn has_self_receiver(nodes: Seq<tree::NodeView>, index: int) -> bool {
    match tree::field_child(nodes, index, "value"@) {
        Some(value) => nodes[value].kind == "self"@,
        None => false,
    }
}

/// The definition that a call expression resolves to: a free function called by its name, or a
/// method of the caller's own implementation called on `self`.
pub open spec fn call_target(
    nodes: Seq<tree::NodeView>,
    source: Seq<u8>,
    definitions: Seq<definitions::DefinitionView>,
    caller: definitions::DefinitionView,
    call: int,
) -> Option<Span> {
    match tree::field_child(nodes, call, "function"@) {
        Some(function) => if nodes[function].kind == "identifier"@ {
            match tree::node_text(nodes, source, function) {
                Some(name) => definitions::resolved(definitions, None, name),
                None => None,
            }
        } else if nodes[function].kind == "field_expression"@ && has_self_receiver(nodes, function) {
            match (tree::field_child(nodes, function, "field"@), caller.impl_type) {
                (Some(field), Some(owner)) => match tree::node_text(nodes, source, field) {
                    Some(name) => definitions::resolved(definitions, Some(owner), name),
                    None => None,
                },
                _ => None,
            }
        } else {
            None
        },
        None => None,
    }
}

/// The unchanged production call that one match of the tag query identifies.
pub open spec fn matched_call(
    nodes: Seq<tree::NodeView>,
    source: Seq<u8>,
    definitions: Seq<definitions::DefinitionView>,
    ranges: Seq<LineRange>,
    captures: Seq<tree::CaptureView>,
) -> Option<CallEdge> {
    match definitions::capture_named(captures, "reference.call"@) {
        Some(reference) => match tree::located(nodes, reference) {
            Some(call) => if hunk::row_in(nodes[call].start_row as int, ranges) || source::in_test(
                nodes,
                source,
                call,
            ) {
                None
            } else {
                match enclosing(nodes, definitions, call) {
                    Some(caller) => if definitions::is_changed(caller, ranges) {
                        None
                    } else {
                        match call_target(nodes, source, definitions, caller, call) {
                            Some(target) => if target == caller.span {
                                None
                            } else {
                                Some(
                                    CallEdge {
                                        target,
                                        caller: caller.span,
                                        at: nodes[call].start_byte,
                                    },
                                )
                            },
                            None => None,
                        }
                    },
                    None => None,
                }
            },
            None => None,
        },
        None => None,
    }
}

/// The unchanged production calls of a source, each once, in the order of the matches.
pub open spec fn calls(
    nodes: Seq<tree::NodeView>,
    source: Seq<u8>,
    definitions: Seq<definitions::DefinitionView>,
    ranges: Seq<LineRange>,
    matches: Seq<Seq<tree::CaptureView>>,
) -> Seq<CallEdge>
    decreases matches.len(),
{
    if matches.len() == 0 {
        seq![]
    } else {
        let before = calls(nodes, source, definitions, ranges, matches.drop_last());
        match matched_call(nodes, source, definitions, ranges, matches.last()) {
            Some(edge) => if before.contains(edge) {
                before
            } else {
                before.push(edge)
            },
            None => before,
        }
    }
}

/// The callers of a definition, one for each call.
pub open spec fn callers_of(edges: Seq<CallEdge>, target: Span) -> Seq<Span>
    decreases edges.len(),
{
    if edges.len() == 0 {
        seq![]
    } else {
        let before = callers_of(edges.drop_last(), target);
        if edges.last().target == target {
            before.push(edges.last().caller)
        } else {
            before
        }
    }
}

/// Whether a span is that of a public definition.
pub open spec fn is_public_span(definitions: Seq<definitions::DefinitionView>, span: Span) -> bool {
    match definitions::lookup(definitions, span) {
        Some(definition) => definition.public,
        None => false,
    }
}

/// The continuations of a reverse call path that end at the first public callable reached.
pub open spec fn entry_paths(
    definitions: Seq<definitions::DefinitionView>,
    edges: Seq<CallEdge>,
    path: Seq<Span>,
) -> Seq<Seq<Span>>
    decreases MAX_CALL_DEPTH - path.len(), 1int, 0nat,
{
    if path.len() > 1 && is_public_span(definitions, path.last()) {
        seq![path]
    } else if path.len() >= MAX_CALL_DEPTH {
        seq![]
    } else {
        entry_paths_through(definitions, edges, path, callers_of(edges, path.last()))
    }
}

/// The continuations of a reverse call path through one of the given callers that it does not
/// hold yet.
pub open spec fn entry_paths_through(
    definitions: Seq<definitions::DefinitionView>,
    edges: Seq<CallEdge>,
    path: Seq<Span>,
    callers: Seq<Span>,
) -> Seq<Seq<Span>>
    decreases MAX_CALL_DEPTH - path.len(), 0int, callers.len(),
{
    if callers.len() == 0 || path.len() >= MAX_CALL_DEPTH {
        seq![]
    } else {
        let before = entry_paths_through(definitions, edges, path, callers.drop_last());
        if path.contains(callers.last()) {
            before
        } else {
            before + entry_paths(definitions, edges, path.push(callers.last()))
        }
    }
}

/// The names of the definitions with the given spans, last first.
pub open spec fn helper_names(
    definitions: Seq<definitions::DefinitionView>,
    helpers: Seq<Span>,
) -> Seq<Seq<char>>
    decreases helpers.len(),
{
    if helpers.len() == 0 {
        seq![]
    } else {
        let after = helper_names(definitions, helpers.drop_last());
        match definitions::lookup(definitions, helpers.last()) {
            Some(definition) => seq![definition.name] + after,
            None => after,
        }
    }
}

/// The definitions between the two ends of a reverse call path.
pub open spec fn path_helpers(path: Seq<Span>) -> Seq<Span> {
    if path.len() > 1 {
        path.subrange(1, path.len() - 1)
    } else {
        seq![]
    }
}

/// The entry point that a reverse call path ends at, with its span.
pub open spec fn path_entry(
    definitions: Seq<definitions::DefinitionView>,
    path: Seq<Span>,
) -> Option<(Span, EntryPointView)> {
    if path.len() == 0 {
        None
    } else {
        match definitions::lookup(definitions, path.last()) {
            Some(definition) => Some(
                (
                    path.last(),
                    EntryPointView {
                        name: definition.label,
                        documentation: definition.documentation,
                        via: helper_names(definitions, path_helpers(path)),
                    },
                ),
            ),
            None => None,
        }
    }
}

/// Whether an entry point was already reached through the same helpers.
pub open spec fn is_known(
    entries: Seq<(Span, EntryPointView)>,
    entry: (Span, EntryPointView),
) -> bool {
    exists|i: int|
        0 <= i < entries.len() && (#[trigger] entries[i]).0 == entry.0 && entries[i].1.via
            == entry.1.via
}

/// The entry points that reverse call paths end at, without repetition.
pub open spec fn path_entries(
    definitions: Seq<definitions::DefinitionView>,
    paths: Seq<Seq<Span>>,
) -> Seq<(Span, EntryPointView)>
    decreases paths.len(),
{
    if paths.len() == 0 {
        seq![]
    } else {
        let before = path_entries(definitions, paths.drop_last());
        match path_entry(definitions, paths.last()) {
            Some(entry) => if is_known(before, entry) {
                before
            } else {
                before.push(entry)
            },
            None => before,
        }
    }
}

/// The first entries of a sequence, at most as many as are shown for one callable.
pub open spec fn shown_entries(entries: Seq<(Span, EntryPointView)>) -> Seq<EntryPointView> {
    let shown = if entries.len() > MAX_ENTRY_POINTS_PER_CALLABLE {
        entries.take(MAX_ENTRY_POINTS_PER_CALLABLE as int)
    } else {
        entries
    };
    shown.map_values(|entry: (Span, EntryPointView)| entry.1)
}

/// The unchanged public entry points that reach a changed callable.
pub open spec fn reached_entry_points(
    definitions: Seq<definitions::DefinitionView>,
    edges: Seq<CallEdge>,
    changed: Span,
) -> Seq<EntryPointView> {
    shown_entries(path_entries(definitions, entry_paths(definitions, edges, seq![changed])))
}

/// Find the callable definition enclosing a node.
pub fn enclosing_caller(syntax: &SyntaxTree, definitions: &[Definition], index: usize) -> (result:
    Option<usize>)
    requires
        index < syntax@.len(),
    ensures
        match result {
            Some(at) => at < definitions@.len() && enclosing(
                syntax@,
                definitions::definition_views(definitions@),
                index as int,
            ) == Some(definitions@[at as int]@),
            None => enclosing(
                syntax@,
                definitions::definition_views(definitions@),
                index as int,
            ) is None,
        },
{
    let ghost views = definitions::definition_views(definitions@);
    let mut current: usize = index;
    loop
        invariant
            views == definitions::definition_views(definitions@),
            current < syntax@.len(),
            enclosing(syntax@, views, index as int) == enclosing(syntax@, views, current as int),
        decreases current,
    {
        match syntax.parent(current) {
            Some(up) => {
                let node = syntax.node(up);
                let span = Span { start: node.start_byte, end: node.end_byte };
                if let Some(at) = definitions::find_span(definitions, span) {
                    if definitions[at].callable {
                        return Some(at);
                    }
                }
                current = up;
            },
            None => return None,
        }
    }
}

/// Check whether a field expression has `self` as its receiver.
pub fn is_self_receiver(syntax: &SyntaxTree, index: usize) -> (result: bool)
    requires
        index < syntax@.len(),
    ensures
        result == has_self_receiver(syntax@, index as int),
{
    match syntax.field_child(index, "value") {
        Some(value) => syntax.has_kind(value, "self"),
        None => false,
    }
}

/// Resolve a direct free-function call or `self.method()` call within the same implementation.
pub fn called_target(
    syntax: &SyntaxTree,
    source: &[u8],
    definitions: &[Definition],
    caller: &Definition,
    call: usize,
) -> (result: Option<Span>)
    requires
        call < syntax@.len(),
    ensures
        result == call_target(
            syntax@,
            source@,
            definitions::definition_views(definitions@),
            caller@,
            call as int,
        ),
{
    match syntax.field_child(call, "function") {
        Some(function) => {
            if syntax.has_kind(function, "identifier") {
                match syntax.text_of(source, function) {
                    Some(name) => definitions::resolve_callable(definitions, &None, &name),
                    None => None,
                }
            } else if syntax.has_kind(function, "field_expression") && is_self_receiver(
                syntax,
                function,
            ) {
                match (syntax.field_child(function, "field"), &caller.impl_type) {
                    (Some(field), Some(_)) => match syntax.text_of(source, field) {
                        Some(name) => definitions::resolve_callable(
                            definitions,
                            &caller.impl_type,
                            &name,
                        ),
                        None => None,
                    },
                    _ => None,
                }
            } else {
                None
            }
        },
        None => None,
    }
}

/// The unchanged production call that one match of the tag query identifies.
fn call_of(
    syntax: &SyntaxTree,
    source: &[u8],
    definitions: &[Definition],
    ranges: &[LineRange],
    captures: &[Capture],
) -> (result: Option<CallEdge>)
    ensures
        result == matched_call(
            syntax@,
            source@,
            definitions::definition_views(definitions@),
            ranges@,
            tree::capture_views(captures@),
        ),
{
    match definitions::find_capture(captures, "reference.call") {
        Some(reference) => match syntax.located(&captures[reference]) {
            Some(call) => {
                let row = syntax.node(call).start_row;
                if hunk::changed_line(row, ranges) || source::is_test_context(syntax, source, call) {
                    return None;
                }
                match enclosing_caller(syntax, definitions, call) {
                    Some(at) => {
                        let caller = &definitions[at];
                        if definitions::overlaps_changed_lines(caller, ranges) {
                            return None;
                        }
                        match called_target(syntax, source, definitions, caller, call) {
                            Some(target) => {
                                if target == caller.span {
                                    None
                                } else {
                                    let at = syntax.node(call).start_byte;
                                    Some(CallEdge { target, caller: caller.span, at })
                                }
                            },
                            None => None,
                        }
                    },
                    None => None,
                }
            },
            None => None,
        },
        None => None,
    }
}

/// Whether a call is among those found.
fn contains_edge(edges: &[CallEdge], edge: CallEdge) -> (result: bool)
    ensures
        result == edges@.contains(edge),
{
    for i in 0..edges.len()
        invariant
            forall|j: int| 0 <= j < i ==> edges@[j] != edge,
    {
        if edges[i] == edge {
            return true;
        }
    }
    false
}

/// Build the reverse graph of unchanged direct production calls.
pub fn reverse_call_graph(
    syntax: &SyntaxTree,
    source: &[u8],
    definitions: &[Definition],
    ranges: &[LineRange],
    matches: &[Vec<Capture>],
) -> (edges: Vec<CallEdge>)
    ensures
        edges@ == calls(
            syntax@,
            source@,
            definitions::definition_views(definitions@),
            ranges@,
            tree::match_views(matches@),
        ),
{
    let ghost views = tree::match_views(matches@);
    let ghost known = definitions::definition_views(definitions@);
    let mut edges: Vec<CallEdge> = Vec::new();
    for i in 0..matches.len()
        invariant
            views == tree::match_views(matches@),
            known == definitions::definition_views(definitions@),
            edges@ == calls(syntax@, source@, known, ranges@, views.take(i as int)),
    {
        assert(views.take(i + 1).drop_last() =~= views.take(i as int));
        assert(views.take(i + 1).last() == tree::capture_views(matches@[i as int]@));
        if let Some(edge) = call_of(syntax, source, definitions, ranges, &matches[i]) {
            if !contains_edge(&edges, edge) {
                edges.push(edge);
            }
        }
    }
    assert(views.take(matches@.len() as int) =~= views);
    edges
}

/// The callers of a definition, one for each call.
pub fn callers(edges: &[CallEdge], target: Span) -> (result: Vec<Span>)
    ensures
        result@ == callers_of(edges@, target),
{
    let mut result: Vec<Span> = Vec::new();
    for i in 0..edges.len()
        invariant
            result@ == callers_of(edges@.take(i as int), target),
    {
        assert(edges@.take(i + 1).drop_last() =~= edges@.take(i as int));
        if edges[i].target == target {
            result.push(edges[i].caller);
        }
    }
    assert(edges@.take(edges@.len() as int) =~= edges@);
    result
}

/// Whether a reverse call path holds a definition.
fn contains_span(path: &[Span], span: Span) -> (result: bool)
    ensures
        result == path@.contains(span),
{
    for i in 0..path.len()
        invariant
            forall|j: int| 0 <= j < i ==> path@[j] != span,
    {
        if path[i] == span {
            return true;
        }
    }
    false
}

/// What a sequence of reverse call paths holds.
pub open spec fn path_views(paths: Seq<Vec<Span>>) -> Seq<Seq<Span>> {
    paths.map_values(|path: Vec<Span>| path@)
}

/// Recursively collect bounded reverse call paths ending at public callables.
pub fn collect_entry_paths(
    definitions: &[Definition],
    edges: &[CallEdge],
    path: &mut Vec<Span>,
    paths: &mut Vec<Vec<Span>>,
)
    requires
        0 < old(path)@.len() <= MAX_CALL_DEPTH,
    ensures
        final(path)@ == old(path)@,
        path_views(final(paths)@) == path_views(old(paths)@) + entry_paths(
            definitions::definition_views(definitions@),
            edges@,
            old(path)@,
        ),
    decreases MAX_CALL_DEPTH - old(path)@.len(),
{
    let ghost known = definitions::definition_views(definitions@);
    let ghost start = path@;
    let ghost found = path_views(paths@);
    let current = path[path.len() - 1];
    if path.len() > 1 {
        if let Some(at) = definitions::find_span(definitions, current) {
            if definitions[at].public {
                let mut copy: Vec<Span> = Vec::new();
                for i in 0..path.len()
                    invariant
                        path@ == start,
                        copy@ == start.take(i as int),
                {
                    assert(start.take(i + 1) =~= start.take(i as int).push(start[i as int]));
                    copy.push(path[i]);
                }
                assert(start.take(start.len() as int) =~= start);
                paths.push(copy);
                assert(path_views(paths@) =~= found + seq![start]);
                return;
            }
        }
    }
    assert(!(start.len() > 1 && is_public_span(known, start.last())));
    if path.len() == MAX_CALL_DEPTH {
        assert(path_views(paths@) =~= found + Seq::<Seq<Span>>::empty());
        return;
    }
    let callers = callers(edges, current);
    assert(path_views(paths@) =~= found + entry_paths_through(
        known,
        edges@,
        start,
        callers@.take(0),
    ));
    for i in 0..callers.len()
        invariant
            known == definitions::definition_views(definitions@),
            path@ == start,
            0 < start.len() < MAX_CALL_DEPTH,
            start.len() == old(path)@.len(),
            path_views(paths@) == found + entry_paths_through(
                known,
                edges@,
                start,
                callers@.take(i as int),
            ),
    {
        assert(callers@.take(i + 1).drop_last() =~= callers@.take(i as int));
        let caller = callers[i];
        if !contains_span(path, caller) {
            path.push(caller);
            collect_entry_paths(definitions, edges, path, paths);
            path.pop();
            assert(path@ =~= start);
            assert(path_views(paths@) =~= found + (entry_paths_through(
                known,
                edges@,
                start,
                callers@.take(i as int),
            ) + entry_paths(known, edges@, start.push(caller))));
        }
    }
    assert(callers@.take(callers@.len() as int) =~= callers@);
}

/// The names of the definitions with the given spans, last first.
fn names_of(definitions: &[Definition], path: &[Span]) -> (result: Vec<String>)
    requires
        path@.len() >= 1,
    ensures
        text::texts(result@) == helper_names(
            definitions::definition_views(definitions@),
            path_helpers(path@),
        ),
{
    let ghost known = definitions::definition_views(definitions@);
    let ghost helpers = path_helpers(path@);
    let mut result: Vec<String> = Vec::new();
    if path.len() == 1 {
        assert(text::texts(result@) =~= seq![]);
        return result;
    }
    let mut left: usize = path.len() - 2;
    assert(helpers.take(left as int) =~= helpers);
    assert(text::texts(result@) =~= seq![]);
    assert(text::texts(result@) + helper_names(known, helpers) =~= helper_names(known, helpers));
    while left > 0
        invariant
            known == definitions::definition_views(definitions@),
            helpers == path_helpers(path@),
            path@.len() >= 2,
            left <= helpers.len() == path@.len() - 2,
            text::texts(result@) + helper_names(known, helpers.take(left as int)) == helper_names(
                known,
                helpers,
            ),
        decreases left,
    {
        let span = path[left];
        assert(span == helpers[left - 1]);
        assert(helpers.take(left as int).drop_last() =~= helpers.take(left - 1));
        let ghost before = text::texts(result@);
        left = left - 1;
        if let Some(at) = definitions::find_span(definitions, span) {
            let name = definitions[at].name.clone();
            proof {
                text::lemma_texts_push(result@, name);
            }
            result.push(name);
            assert(text::texts(result@) + helper_names(known, helpers.take(left as int)) =~= before
                + (seq![name@] + helper_names(known, helpers.take(left as int))));
        }
    }
    assert(helpers.take(0) =~= seq![]);
    assert(text::texts(result@) =~= helper_names(known, helpers));
    result
}

/// Whether an entry point was already reached through the same helpers.
fn known_entry(spans: &[Span], points: &[EntryPoint], span: Span, via: &[String]) -> (result: bool)
    requires
        spans@.len() == points@.len(),
    ensures
        result == exists|i: int|
            0 <= i < spans@.len() && #[trigger] spans@[i] == span && text::texts(points@[i].via@)
                == text::texts(via@),
{
    for i in 0..spans.len()
        invariant
            spans@.len() == points@.len(),
            forall|j: int|
                0 <= j < i ==> !(#[trigger] spans@[j] == span && text::texts(points@[j].via@)
                    == text::texts(via@)),
    {
        if spans[i] == span && text::same_texts(&points[i].via, via) {
            return true;
        }
    }
    false
}

/// Entry points with the spans of their definitions.
pub open spec fn located_entries(spans: Seq<Span>, points: Seq<EntryPoint>) -> Seq<
    (Span, EntryPointView),
> {
    Seq::new(spans.len(), |i: int| (spans[i], points[i]@))
}

/// Follow callers until reaching unchanged public entry points.
pub fn entry_points(definitions: &[Definition], edges: &[CallEdge], changed: Span) -> (result: Vec<
    EntryPoint,
>)
    ensures
        entry_point_views(result@) == reached_entry_points(
            definitions::definition_views(definitions@),
            edges@,
            changed,
        ),
{
    let ghost known = definitions::definition_views(definitions@);
    let mut path: Vec<Span> = Vec::new();
    path.push(changed);
    let mut paths: Vec<Vec<Span>> = Vec::new();
    assert(path@ =~= seq![changed]);
    collect_entry_paths(definitions, edges, &mut path, &mut paths);
    let ghost views = entry_paths(known, edges@, seq![changed]);
    assert(path_views(paths@) =~= views);

    let mut spans: Vec<Span> = Vec::new();
    let mut points: Vec<EntryPoint> = Vec::new();
    assert(located_entries(spans@, points@) =~= path_entries(known, views.take(0)));
    for i in 0..paths.len()
        invariant
            known == definitions::definition_views(definitions@),
            views == path_views(paths@),
            spans@.len() == points@.len(),
            located_entries(spans@, points@) == path_entries(known, views.take(i as int)),
    {
        let path = &paths[i];
        let ghost before = located_entries(spans@, points@);
        assert(views.take(i + 1).drop_last() =~= views.take(i as int));
        assert(views.take(i + 1).last() == path@);
        if path.len() > 0 {
            let span = path[path.len() - 1];
            if let Some(at) = definitions::find_span(definitions, span) {
                let via = names_of(definitions, path);
                let fresh = !known_entry(&spans, &points, span, &via);
                let documentation = match &definitions[at].documentation {
                    Some(summary) => Some(summary.clone()),
                    None => None,
                };
                let point = EntryPoint { name: definitions[at].label.clone(), documentation, via };
                let ghost entry = (span, point@);
                assert(path_entry(known, path@) == Some(entry));
                assert(fresh == !is_known(before, entry)) by {
                    if is_known(before, entry) {
                        let j = choose|j: int|
                            0 <= j < before.len() && (#[trigger] before[j]).0 == entry.0
                                && before[j].1.via == entry.1.via;
                        assert(spans@[j] == span);
                    }
                    assert forall|j: int|
                        0 <= j < spans@.len() && #[trigger] spans@[j] == span && text::texts(
                            points@[j].via@,
                        ) == text::texts(via@) implies is_known(before, entry) by {
                        assert(before[j].0 == entry.0);
                    }
                }
                if fresh {
                    spans.push(span);
                    points.push(point);
                    assert(located_entries(spans@, points@) =~= before.push(entry));
                }
            }
        }
    }
    assert(views.take(paths@.len() as int) =~= views);
    let ghost entries = path_entries(known, views);
    if points.len() > MAX_ENTRY_POINTS_PER_CALLABLE {
        points.truncate(MAX_ENTRY_POINTS_PER_CALLABLE);
        assert(entry_point_views(points@) =~= shown_entries(entries));
    } else {
        assert(entry_point_views(points@) =~= shown_entries(entries));
    }
    points
}

/// Whether a reverse call path follows calls from a changed callable to the first public callable
/// reached, without passing a definition twice.
pub open spec fn is_entry_path(
    definitions: Seq<definitions::DefinitionView>,
    edges: Seq<CallEdge>,
    path: Seq<Span>,
) -> bool {
    &&& 2 <= path.len() <= MAX_CALL_DEPTH
    &&& is_public_span(definitions, path.last())
    &&& follows_calls(definitions, edges, path)
}

/// Whether each definition of a reverse call path calls the one before it, none occurs twice, and
/// none between the two ends is public.
pub open spec fn follows_calls(
    definitions: Seq<definitions::DefinitionView>,
    edges: Seq<CallEdge>,
    path: Seq<Span>,
) -> bool {
    &&& path.no_duplicates()
    &&& forall|i: int|
        0 < i < path.len() ==> callers_of(edges, path[i - 1]).contains(#[trigger] path[i])
    &&& forall|i: int|
        0 < i < path.len() - 1 ==> !is_public_span(definitions, #[trigger] path[i])
}

/// Whether each of the paths leads from `start` to the first public callable reached.
pub open spec fn are_entry_paths(
    definitions: Seq<definitions::DefinitionView>,
    edges: Seq<CallEdge>,
    start: Span,
    paths: Seq<Seq<Span>>,
) -> bool {
    forall|i: int|
        0 <= i < paths.len() ==> is_entry_path(definitions, edges, #[trigger] paths[i])
            && paths[i][0] == start
}

/// Every path found from a changed callable holds two to four definitions, follows direct calls
/// back from that callable, passes no definition twice, and ends at the first public one.
pub proof fn lemma_entry_paths_lead_to_public_callers(
    definitions: Seq<definitions::DefinitionView>,
    edges: Seq<CallEdge>,
    changed: Span,
)
    ensures
        are_entry_paths(
            definitions,
            edges,
            changed,
            entry_paths(definitions, edges, seq![changed]),
        ),
{
    lemma_entry_paths(definitions, edges, seq![changed]);
}

proof fn lemma_entry_paths(
    definitions: Seq<definitions::DefinitionView>,
    edges: Seq<CallEdge>,
    path: Seq<Span>,
)
    requires
        0 < path.len() <= MAX_CALL_DEPTH,
        follows_calls(definitions, edges, path),
    ensures
        are_entry_paths(definitions, edges, path[0], entry_paths(definitions, edges, path)),
    decreases MAX_CALL_DEPTH - path.len(), 1int, 0nat,
{
    if path.len() > 1 && is_public_span(definitions, path.last()) {
        assert(entry_paths(definitions, edges, path) =~= seq![path]);
    } else if path.len() < MAX_CALL_DEPTH {
        lemma_entry_paths_through(definitions, edges, path, callers_of(edges, path.last()));
    }
}

proof fn lemma_entry_paths_through(
    definitions: Seq<definitions::DefinitionView>,
    edges: Seq<CallEdge>,
    path: Seq<Span>,
    callers: Seq<Span>,
)
    requires
        0 < path.len() < MAX_CALL_DEPTH,
        follows_calls(definitions, edges, path),
        path.len() > 1 ==> !is_public_span(definitions, path.last()),
        forall|i: int|
            0 <= i < callers.len() ==> callers_of(edges, path.last()).contains(
                #[trigger] callers[i],
            ),
    ensures
        are_entry_paths(
            definitions,
            edges,
            path[0],
            entry_paths_through(definitions, edges, path, callers),
        ),
    decreases MAX_CALL_DEPTH - path.len(), 0int, callers.len(),
{
    if callers.len() > 0 {
        let before = callers.drop_last();
        assert forall|i: int| 0 <= i < before.len() implies callers_of(
            edges,
            path.last(),
        ).contains(#[trigger] before[i]) by {
            assert(before[i] == callers[i]);
        }
        lemma_entry_paths_through(definitions, edges, path, before);
        if !path.contains(callers.last()) {
            let longer = path.push(callers.last());
            assert(callers_of(edges, path.last()).contains(callers[callers.len() - 1]));
            assert forall|i: int| 0 < i < longer.len() implies callers_of(
                edges,
                longer[i - 1],
            ).contains(#[trigger] longer[i]) by {
                if i < path.len() {
                    assert(longer[i] == path[i]);
                }
            }
            assert forall|i: int| 0 < i < longer.len() - 1 implies !is_public_span(
                definitions,
                #[trigger] longer[i],
            ) by {
                assert(longer[i] == path[i]);
            }
            lemma_entry_paths(definitions, edges, longer);
            let first = entry_paths_through(definitions, edges, path, before);
            let second = entry_paths(definitions, edges, longer);
            let both = first + second;
            assert forall|i: int| 0 <= i < both.len() implies is_entry_path(
                definitions,
                edges,
                #[trigger] both[i],
            ) && both[i][0] == path[0] by {
                if i < first.len() {
                    assert(both[i] == first[i]);
                } else {
                    assert(both[i] == second[i - first.len()]);
                }
            }
        }
    }
}

/// Every call followed is made by an unchanged callable to another definition.
pub proof fn lemma_calls_come_from_unchanged_callables(
    nodes: Seq<tree::NodeView>,
    source: Seq<u8>,
    definitions: Seq<definitions::DefinitionView>,
    ranges: Seq<LineRange>,
    matches: Seq<Seq<tree::CaptureView>>,
)
    ensures
        forall|i: int|
            0 <= i < calls(nodes, source, definitions, ranges, matches).len() ==> {
                let edge = #[trigger] calls(nodes, source, definitions, ranges, matches)[i];
                edge.caller != edge.target && match definitions::lookup(definitions, edge.caller) {
                    Some(caller) => caller.callable && !definitions::is_changed(caller, ranges),
                    None => false,
                }
            },
    decreases matches.len(),
{
    if matches.len() > 0 {
        lemma_calls_come_from_unchanged_callables(
            nodes,
            source,
            definitions,
            ranges,
            matches.drop_last(),
        );
        if let Some(reference) = definitions::capture_named(matches.last(), "reference.call"@) {
            if let Some(call) = tree::located(nodes, reference) {
                lemma_enclosing_is_a_definition(nodes, definitions, call);
            }
        }
    }
}

proof fn lemma_enclosing_is_a_definition(
    nodes: Seq<tree::NodeView>,
    definitions: Seq<definitions::DefinitionView>,
    index: int,
)
    ensures
        enclosing(nodes, definitions, index) matches Some(found) ==> found.callable
            && definitions::lookup(definitions, found.span) == Some(found),
    decreases index,
{
    if let Some(up) = tree::parent(nodes, index) {
        if 0 <= up < index {
            lemma_enclosing_is_a_definition(nodes, definitions, up);
            definitions::lemma_position(definitions, definitions::node_span(nodes[up]));
        }
    }
}

/// A callable calls another exactly where some edge says so.
pub proof fn lemma_callers_are_those_of_the_edges(edges: Seq<CallEdge>, target: Span, caller: Span)
    ensures
        callers_of(edges, target).contains(caller) <==> exists|i: int|
            0 <= i < edges.len() && (#[trigger] edges[i]).target == target && edges[i].caller
                == caller,
    decreases edges.len(),
{
    if edges.len() > 0 {
        let rest = edges.drop_last();
        let before = callers_of(rest, target);
        let all = callers_of(edges, target);
        lemma_callers_are_those_of_the_edges(rest, target, caller);
        assert(edges[edges.len() - 1] == edges.last());
        if all.contains(caller) {
            let at = choose|at: int| 0 <= at < all.len() && all[at] == caller;
            if at < before.len() {
                assert(before[at] == caller);
                let i = choose|i: int|
                    0 <= i < rest.len() && (#[trigger] rest[i]).target == target
                        && rest[i].caller == caller;
                assert(edges[i] == rest[i]);
            }
        }
        if exists|i: int|
            0 <= i < edges.len() && (#[trigger] edges[i]).target == target && edges[i].caller
                == caller {
            let i = choose|i: int|
                0 <= i < edges.len() && (#[trigger] edges[i]).target == target && edges[i].caller
                    == caller;
            if i < rest.len() {
                assert(rest[i] == edges[i]);
                let at = choose|at: int| 0 <= at < before.len() && before[at] == caller;
                assert(all[at] == caller);
            } else {
                assert(all[before.len() as int] == caller);
            }
        }
    }
}

/// The edges of a source are exactly what its matches of calls give, each once.
pub proof fn lemma_every_matched_call_is_an_edge(
    nodes: Seq<tree::NodeView>,
    source: Seq<u8>,
    definitions: Seq<definitions::DefinitionView>,
    ranges: Seq<LineRange>,
    matches: Seq<Seq<tree::CaptureView>>,
    edge: CallEdge,
)
    ensures
        calls(nodes, source, definitions, ranges, matches).no_duplicates(),
        calls(nodes, source, definitions, ranges, matches).contains(edge) <==> exists|m: int|
            0 <= m < matches.len() && matched_call(
                nodes,
                source,
                definitions,
                ranges,
                #[trigger] matches[m],
            ) == Some(edge),
    decreases matches.len(),
{
    if matches.len() > 0 {
        let rest = matches.drop_last();
        let before = calls(nodes, source, definitions, ranges, rest);
        let all = calls(nodes, source, definitions, ranges, matches);
        lemma_every_matched_call_is_an_edge(nodes, source, definitions, ranges, rest, edge);
        assert(matches[matches.len() - 1] == matches.last());
        if all.contains(edge) {
            let at = choose|at: int| 0 <= at < all.len() && all[at] == edge;
            if at < before.len() {
                assert(before[at] == edge);
                let m = choose|m: int|
                    0 <= m < rest.len() && matched_call(
                        nodes,
                        source,
                        definitions,
                        ranges,
                        #[trigger] rest[m],
                    ) == Some(edge);
                assert(matches[m] == rest[m]);
            }
        }
        if exists|m: int|
            0 <= m < matches.len() && matched_call(
                nodes,
                source,
                definitions,
                ranges,
                #[trigger] matches[m],
            ) == Some(edge) {
            let m = choose|m: int|
                0 <= m < matches.len() && matched_call(
                    nodes,
                    source,
                    definitions,
                    ranges,
                    #[trigger] matches[m],
                ) == Some(edge);
            if m < rest.len() {
                assert(rest[m] == matches[m]);
                let at = choose|at: int| 0 <= at < before.len() && before[at] == edge;
                assert(all[at] == edge);
            } else if !before.contains(edge) {
                assert(all[before.len() as int] == edge);
            }
        }
    }
}

proof fn lemma_paths_through_hold(
    definitions: Seq<definitions::DefinitionView>,
    edges: Seq<CallEdge>,
    path: Seq<Span>,
    callers: Seq<Span>,
    caller: Span,
    found: Seq<Span>,
)
    requires
        path.len() < MAX_CALL_DEPTH,
        callers.contains(caller),
        !path.contains(caller),
        entry_paths(definitions, edges, path.push(caller)).contains(found),
    ensures
        entry_paths_through(definitions, edges, path, callers).contains(found),
    decreases callers.len(),
{
    let rest = callers.drop_last();
    let before = entry_paths_through(definitions, edges, path, rest);
    let all = entry_paths_through(definitions, edges, path, callers);
    let at = choose|at: int| 0 <= at < callers.len() && callers[at] == caller;
    if at == callers.len() - 1 {
        let added = entry_paths(definitions, edges, path.push(caller));
        let i = choose|i: int| 0 <= i < added.len() && added[i] == found;
        assert(all[before.len() + i] == found);
    } else {
        assert(rest[at] == caller);
        lemma_paths_through_hold(definitions, edges, path, rest, caller, found);
        let i = choose|i: int| 0 <= i < before.len() && before[i] == found;
        assert(all[i] == found);
    }
}

proof fn lemma_started_paths_are_found(
    definitions: Seq<definitions::DefinitionView>,
    edges: Seq<CallEdge>,
    path: Seq<Span>,
    count: int,
)
    requires
        is_entry_path(definitions, edges, path),
        1 <= count <= path.len(),
    ensures
        entry_paths(definitions, edges, path.take(count)).contains(path),
    decreases path.len() - count,
{
    let start = path.take(count);
    if count == path.len() {
        assert(start =~= path);
        assert(seq![path][0] == path);
    } else {
        lemma_started_paths_are_found(definitions, edges, path, count + 1);
        let caller = path[count];
        assert(start.push(caller) =~= path.take(count + 1));
        assert(callers_of(edges, path[count - 1]).contains(path[count]));
        assert(start.last() == path[count - 1]);
        assert(!start.contains(caller)) by {
            if start.contains(caller) {
                let i = choose|i: int| 0 <= i < start.len() && start[i] == caller;
                assert(path[i] == path[count]);
            }
        }
        if count > 1 {
            assert(!is_public_span(definitions, path[count - 1]));
        }
        lemma_paths_through_hold(
            definitions,
            edges,
            start,
            callers_of(edges, start.last()),
            caller,
            path,
        );
    }
}

/// Every chain of calls that leads from a changed callable to a public one through none is found: of
/// at most four callables, no two of them the same.
pub proof fn lemma_every_short_chain_of_calls_is_found(
    definitions: Seq<definitions::DefinitionView>,
    edges: Seq<CallEdge>,
    path: Seq<Span>,
)
    requires
        2 <= path.len() <= 4,
        path.no_duplicates(),
        forall|i: int|
            0 < i < path.len() ==> callers_of(edges, path[i - 1]).contains(#[trigger] path[i]),
        forall|i: int|
            0 < i < path.len() - 1 ==> !is_public_span(definitions, #[trigger] path[i]),
        is_public_span(definitions, path.last()),
    ensures
        entry_paths(definitions, edges, seq![path[0]]).contains(path),
{
    lemma_started_paths_are_found(definitions, edges, path, 1);
    assert(path.take(1) =~= seq![path[0]]);
}

/// Every path that is found has its entry point: one with the label and documentation of the public
/// callable, and the helpers on the way.
pub proof fn lemma_every_path_has_its_entry_point(
    definitions: Seq<definitions::DefinitionView>,
    paths: Seq<Seq<Span>>,
    i: int,
)
    requires
        0 <= i < paths.len(),
        paths[i].len() > 0,
    ensures
        definitions::lookup(definitions, paths[i].last()) matches Some(definition) ==> exists|k: int|
            #![trigger path_entries(definitions, paths)[k]]
            0 <= k < path_entries(definitions, paths).len() && path_entries(definitions, paths)[k].0
                == paths[i].last() && path_entries(definitions, paths)[k].1.name
                == definition.label && path_entries(definitions, paths)[k].1.documentation
                == definition.documentation && path_entries(definitions, paths)[k].1.via
                == helper_names(definitions, path_helpers(paths[i])),
    decreases paths.len(),
{
    let rest = paths.drop_last();
    let before = path_entries(definitions, rest);
    let all = path_entries(definitions, paths);
    lemma_path_entries_name_their_callable(definitions, rest);
    if let Some(definition) = definitions::lookup(definitions, paths[i].last()) {
        if i == paths.len() - 1 {
            let entry = path_entry(definitions, paths[i])->0;
            if is_known(before, entry) {
                let k = choose|k: int|
                    0 <= k < before.len() && (#[trigger] before[k]).0 == entry.0
                        && before[k].1.via == entry.1.via;
                assert(all[k] == before[k]);
            } else {
                assert(all[before.len() as int] == entry);
            }
        } else {
            assert(rest[i] == paths[i]);
            lemma_every_path_has_its_entry_point(definitions, rest, i);
            let k = choose|k: int|
                #![trigger before[k]]
                0 <= k < before.len() && before[k].0 == paths[i].last() && before[k].1.name
                    == definition.label && before[k].1.documentation == definition.documentation
                    && before[k].1.via == helper_names(definitions, path_helpers(paths[i]));
            assert(all[k] == before[k]);
        }
    }
}

proof fn lemma_path_entries_name_their_callable(
    definitions: Seq<definitions::DefinitionView>,
    paths: Seq<Seq<Span>>,
)
    ensures
        forall|k: int|
            #![trigger path_entries(definitions, paths)[k]]
            0 <= k < path_entries(definitions, paths).len() ==> (definitions::lookup(
                definitions,
                path_entries(definitions, paths)[k].0,
            ) matches Some(definition) && path_entries(definitions, paths)[k].1.name
                == definition.label && path_entries(definitions, paths)[k].1.documentation
                == definition.documentation),
    decreases paths.len(),
{
    if paths.len() > 0 {
        lemma_path_entries_name_their_callable(definitions, paths.drop_last());
    }
}

/// At most three entry points are shown, the first ones, and all where there are no more.
pub proof fn lemma_three_entry_points_are_shown(entries: Seq<(Span, EntryPointView)>, i: int)
    ensures
        entries.len() <= 3 ==> shown_entries(entries).len() == entries.len(),
        entries.len() > 3 ==> shown_entries(entries).len() == 3,
        0 <= i < shown_entries(entries).len() ==> shown_entries(entries)[i] == entries[i].1,
{
}

/// The helpers on the way are named from the entry point down to the changed callable.
pub proof fn lemma_helpers_are_named_from_the_entry_down(
    definitions: Seq<definitions::DefinitionView>,
    helpers: Seq<Span>,
    i: int,
)
    requires
        forall|j: int|
            0 <= j < helpers.len() ==> definitions::lookup(
                definitions,
                #[trigger] helpers[j],
            ) is Some,
        0 <= i < helpers.len(),
    ensures
        helper_names(definitions, helpers).len() == helpers.len(),
        helper_names(definitions, helpers)[i] == definitions::lookup(
            definitions,
            helpers[helpers.len() - 1 - i],
        )->0.name,
    decreases helpers.len(),
{
    let rest = helpers.drop_last();
    assert forall|j: int| 0 <= j < rest.len() implies definitions::lookup(
        definitions,
        #[trigger] rest[j],
    ) is Some by {
        assert(rest[j] == helpers[j]);
    }
    assert(definitions::lookup(definitions, helpers[helpers.len() - 1]) is Some);
    if rest.len() > 0 {
        lemma_helpers_are_named_from_the_entry_down(
            definitions,
            rest,
            if i == 0 {
                0
            } else {
                i - 1
            },
        );
        if i > 0 {
            assert(rest[rest.len() - i] == helpers[helpers.len() - 1 - i]);
        }
    } else {
        assert(helper_names(definitions, rest) =~= seq![]);
    }
}

/// The node that stands a number of levels above another, if there is one.
pub open spec fn ancestor(nodes: Seq<tree::NodeView>, index: int, levels: nat) -> Option<int>
    decreases levels,
{
    if levels == 0 {
        Some(index)
    } else {
        match tree::parent(nodes, index) {
            Some(up) => if 0 <= up < index {
                ancestor(nodes, up, (levels - 1) as nat)
            } else {
                None
            },
            None => None,
        }
    }
}

/// The callable that a node is, if it is one.
pub open spec fn callable_at(
    nodes: Seq<tree::NodeView>,
    definitions: Seq<definitions::DefinitionView>,
    index: Option<int>,
) -> Option<definitions::DefinitionView> {
    match index {
        Some(index) => match definitions::lookup(definitions, definitions::node_span(nodes[index])) {
            Some(definition) => if definition.callable {
                Some(definition)
            } else {
                None
            },
            None => None,
        },
        None => None,
    }
}

/// The caller is the nearest callable around a call: some node above the call is it, and no node
/// between the two is callable. Where there is no caller, no node above the call is callable.
pub proof fn lemma_callers_are_the_nearest_callables_around(
    nodes: Seq<tree::NodeView>,
    definitions: Seq<definitions::DefinitionView>,
    index: int,
)
    ensures
        match enclosing(nodes, definitions, index) {
            Some(caller) => exists|levels: nat|
                levels > 0 && callable_at(
                    nodes,
                    definitions,
                    #[trigger] ancestor(nodes, index, levels),
                ) == Some(caller) && forall|nearer: nat|
                    0 < nearer < levels ==> callable_at(
                        nodes,
                        definitions,
                        #[trigger] ancestor(nodes, index, nearer),
                    ) is None,
            None => forall|levels: nat|
                levels > 0 ==> callable_at(
                    nodes,
                    definitions,
                    #[trigger] ancestor(nodes, index, levels),
                ) is None,
        },
    decreases index,
{
    match tree::parent(nodes, index) {
        Some(up) => if 0 <= up < index {
            assert(ancestor(nodes, up, 0) == Some(up));
            assert(ancestor(nodes, index, 1) == ancestor(nodes, up, 0));
            if callable_at(nodes, definitions, Some(up)) is None {
                lemma_callers_are_the_nearest_callables_around(nodes, definitions, up);
                match enclosing(nodes, definitions, up) {
                    Some(caller) => {
                        let levels = choose|levels: nat|
                            levels > 0 && callable_at(
                                nodes,
                                definitions,
                                #[trigger] ancestor(nodes, up, levels),
                            ) == Some(caller) && forall|nearer: nat|
                                0 < nearer < levels ==> callable_at(
                                    nodes,
                                    definitions,
                                    #[trigger] ancestor(nodes, up, nearer),
                                ) is None;
                        assert(ancestor(nodes, index, levels + 1) == ancestor(nodes, up, levels));
                        assert forall|nearer: nat| 0 < nearer < levels + 1 implies callable_at(
                            nodes,
                            definitions,
                            #[trigger] ancestor(nodes, index, nearer),
                        ) is None by {
                            assert(ancestor(nodes, index, nearer) == ancestor(
                                nodes,
                                up,
                                (nearer - 1) as nat,
                            ));
                        }
                        let above = levels + 1;
                        assert(callable_at(nodes, definitions, ancestor(nodes, index, above))
                            == Some(caller));
                    },
                    None => {
                        assert forall|levels: nat| levels > 0 implies callable_at(
                            nodes,
                            definitions,
                            #[trigger] ancestor(nodes, index, levels),
                        ) is None by {
                            assert(ancestor(nodes, index, levels) == ancestor(
                                nodes,
                                up,
                                (levels - 1) as nat,
                            ));
                        }
                    },
                }
            }
        },
        None => {},
    }
}

/// A call resolves to a free function where it calls a plain name, and to a method of the caller's
/// own type where it calls one on `self`; every other call resolves to nothing.
pub proof fn lemma_calls_resolve_by_name(
    nodes: Seq<tree::NodeView>,
    source: Seq<u8>,
    definitions: Seq<definitions::DefinitionView>,
    caller: definitions::DefinitionView,
    call: int,
)
    ensures
        call_target(nodes, source, definitions, caller, call) matches Some(target) ==> (
        tree::field_child(nodes, call, "function"@) matches Some(function) && ((
        nodes[function].kind == "identifier"@ && (tree::node_text(
            nodes,
            source,
            function,
        ) matches Some(name) && definitions::resolved(definitions, None, name) == Some(target)))
            || (nodes[function].kind == "field_expression"@ && (tree::field_child(
            nodes,
            function,
            "value"@,
        ) matches Some(value) && nodes[value].kind == "self"@) && caller.impl_type is Some && (
        tree::field_child(nodes, function, "field"@) matches Some(field) && (tree::node_text(
            nodes,
            source,
            field,
        ) matches Some(name) && definitions::resolved(definitions, caller.impl_type, name) == Some(
            target,
        )))))),
        (tree::field_child(nodes, call, "function"@) matches Some(function) && nodes[function].kind
            == "identifier"@ && (tree::node_text(nodes, source, function) matches Some(name)
            && definitions::resolved(definitions, None, name) is Some)) ==> call_target(
            nodes,
            source,
            definitions,
            caller,
            call,
        ) is Some,
{
}

/// A match is an edge exactly where it is a call on an unchanged line outside of tests, by a caller
/// that is not changed, of a known callable other than the caller.
pub proof fn lemma_unchanged_calls_of_known_callables_are_edges(
    nodes: Seq<tree::NodeView>,
    source: Seq<u8>,
    definitions: Seq<definitions::DefinitionView>,
    ranges: Seq<LineRange>,
    captures: Seq<tree::CaptureView>,
)
    ensures
        matched_call(nodes, source, definitions, ranges, captures) is Some <==> (
        definitions::capture_named(captures, "reference.call"@) matches Some(reference) && (
        tree::located(nodes, reference) matches Some(call) && !hunk::row_in(
            nodes[call].start_row as int,
            ranges,
        ) && !source::in_test(nodes, source, call) && (enclosing(
            nodes,
            definitions,
            call,
        ) matches Some(caller) && !definitions::is_changed(caller, ranges) && (call_target(
            nodes,
            source,
            definitions,
            caller,
            call,
        ) matches Some(target) && target != caller.span)))),
        matched_call(nodes, source, definitions, ranges, captures) matches Some(edge) ==> ({
            let call = tree::located(
                nodes,
                definitions::capture_named(captures, "reference.call"@)->0,
            )->0;
            let caller = enclosing(nodes, definitions, call)->0;
            &&& edge.caller == caller.span
            &&& Some(edge.target) == call_target(nodes, source, definitions, caller, call)
            &&& edge.at == nodes[call].start_byte
        }),
{
}

} // verus!
