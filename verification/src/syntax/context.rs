//! Public code that a changed Rust file affects.

use vstd::prelude::*;

use crate::git::change;
use crate::git::change::{CommitChange, FileVersion};
use crate::git::hunk;
use crate::git::hunk::{DiffHunk, LineRange};
use crate::path;
use crate::path::RepoPath;
use crate::syntax::calls;
use crate::syntax::calls::{CallEdge, EntryPoint};
use crate::syntax::definitions;
use crate::syntax::definitions::Definition;
use crate::syntax::language;
use crate::syntax::language::Language;
use crate::syntax::source;
use crate::syntax::tree;
use crate::syntax::tree::{Capture, ParsedSource, RustQuery, SyntaxFailure, SyntaxTree};
use crate::text;

verus! {

/// Maximum cross-file call sites shown for one changed callable.
pub const MAX_EXTERNAL_CALLERS_PER_CALLABLE: usize = 3;

/// One direct caller in another Rust source file.
#[derive(Debug, Clone, PartialEq, Eq)]
pub struct ExternalCallSite {
    /// Repository-relative path of the caller.
    pub path: RepoPath,
    /// Enclosing callable.
    pub caller: String,
    /// Source line containing the call.
    pub call: String,
}

/// A changed callable and the unchanged code it affects.
#[derive(Debug, Clone, PartialEq, Eq)]
pub struct AffectedCode {
    /// Changed function or method declaration.
    pub changed: String,
    /// Whether the changed callable is itself a public entry point.
    pub public: bool,
    /// Brief documentation for the changed callable, when it is public.
    pub documentation: Option<String>,
    /// Unchanged public entry points affected by the change.
    pub entry_points: Vec<EntryPoint>,
    /// Unchanged direct callers in other Rust files.
    pub external_callers: Vec<ExternalCallSite>,
}

/// Same-file public code affected by a changed Rust file.
#[derive(Debug, Clone, PartialEq, Eq)]
pub struct SyntaxContext {
    /// File path.
    pub path: RepoPath,
    /// Changed callables with unchanged public entry points.
    pub affected: Vec<AffectedCode>,
}

/// A file of the working tree with its contents in the index.
#[derive(Debug, Clone, PartialEq, Eq)]
pub struct IndexedFile {
    /// Path relative to the repository root.
    pub path: RepoPath,
    /// Contents in the index.
    pub source: Vec<u8>,
    /// Lines of the contents that the commit changes.
    pub changed: Vec<LineRange>,
}

/// Why a source cannot be examined.
#[derive(Debug, Clone, Copy, PartialEq, Eq, Structural)]
pub enum SyntaxError {
    /// The grammar does not load.
    Grammar,
    /// The parser gave up.
    Parse,
    /// The tag query does not load.
    TagQuery,
    /// The call query does not load.
    CallQuery,
}

/// What a [`ExternalCallSite`] holds.
pub ghost struct CallSiteView {
    pub path: Seq<u8>,
    pub caller: Seq<char>,
    pub call: Seq<char>,
}

/// What an [`AffectedCode`] holds.
pub ghost struct AffectedView {
    pub changed: Seq<char>,
    pub public: bool,
    pub documentation: Option<Seq<char>>,
    pub entry_points: Seq<calls::EntryPointView>,
    pub external_callers: Seq<CallSiteView>,
}

/// What a [`SyntaxContext`] holds.
pub ghost struct SyntaxContextView {
    pub path: Seq<u8>,
    pub affected: Seq<AffectedView>,
}

/// What an [`IndexedFile`] holds.
pub ghost struct IndexedFileView {
    pub path: Seq<u8>,
    pub source: Seq<u8>,
    pub changed: Seq<LineRange>,
}

impl View for ExternalCallSite {
    type V = CallSiteView;

    open spec fn view(&self) -> CallSiteView {
        CallSiteView { path: self.path@, caller: self.caller@, call: self.call@ }
    }
}

/// What a sequence of call sites holds.
pub open spec fn site_views(sites: Seq<ExternalCallSite>) -> Seq<CallSiteView> {
    sites.map_values(|site: ExternalCallSite| site@)
}

/// What the call sites of several callables hold.
pub open spec fn all_site_views(sites: Seq<Vec<ExternalCallSite>>) -> Seq<Seq<CallSiteView>> {
    sites.map_values(|of_one: Vec<ExternalCallSite>| site_views(of_one@))
}

impl View for AffectedCode {
    type V = AffectedView;

    open spec fn view(&self) -> AffectedView {
        AffectedView {
            changed: self.changed@,
            public: self.public,
            documentation: text::optional_text(self.documentation),
            entry_points: calls::entry_point_views(self.entry_points@),
            external_callers: site_views(self.external_callers@),
        }
    }
}

/// What a sequence of affected code holds.
pub open spec fn affected_views(affected: Seq<AffectedCode>) -> Seq<AffectedView> {
    affected.map_values(|code: AffectedCode| code@)
}

impl View for SyntaxContext {
    type V = SyntaxContextView;

    open spec fn view(&self) -> SyntaxContextView {
        SyntaxContextView { path: self.path@, affected: affected_views(self.affected@) }
    }
}

impl View for IndexedFile {
    type V = IndexedFileView;

    open spec fn view(&self) -> IndexedFileView {
        IndexedFileView { path: self.path@, source: self.source@, changed: self.changed@ }
    }
}

/// What a sequence of files holds.
pub open spec fn file_views(files: Seq<IndexedFile>) -> Seq<IndexedFileView> {
    files.map_values(|file: IndexedFile| file@)
}

/// What an error is reported as.
pub open spec fn syntax_error_text(error: SyntaxError) -> Seq<char> {
    match error {
        SyntaxError::Grammar => "failed to load the Rust Tree-sitter grammar"@,
        SyntaxError::Parse => "Tree-sitter failed to parse Rust source"@,
        SyntaxError::TagQuery => "failed to load the Rust Tree-sitter tag query"@,
        SyntaxError::CallQuery => "failed to load the Rust call query"@,
    }
}

impl SyntaxError {
    /// What the error is reported as.
    pub fn message(&self) -> (message: &'static str)
        ensures
            message@ == syntax_error_text(*self),
    {
        match self {
            SyntaxError::Grammar => "failed to load the Rust Tree-sitter grammar",
            SyntaxError::Parse => "Tree-sitter failed to parse Rust source",
            SyntaxError::TagQuery => "failed to load the Rust Tree-sitter tag query",
            SyntaxError::CallQuery => "failed to load the Rust call query",
        }
    }
}

/// The error that a parser failure is.
pub open spec fn parse_error(failure: SyntaxFailure) -> SyntaxError {
    match failure {
        SyntaxFailure::Grammar => SyntaxError::Grammar,
        SyntaxFailure::Parse => SyntaxError::Parse,
        SyntaxFailure::Query => SyntaxError::TagQuery,
    }
}

/// Why the definitions of a source cannot be found, if they cannot.
pub open spec fn definitions_error(source: Seq<u8>) -> Option<SyntaxError> {
    match tree::parse_failure(source) {
        Some(failure) => Some(parse_error(failure)),
        None => if tree::rust_matches(source, tree::query_text(RustQuery::Tags)) is None {
            Some(SyntaxError::TagQuery)
        } else {
            None
        },
    }
}

/// The definitions of a source.
pub open spec fn source_definitions(source: Seq<u8>) -> Seq<definitions::DefinitionView> {
    match tree::rust_matches(source, tree::query_text(RustQuery::Tags)) {
        Some(matches) => definitions::all_definitions(tree::rust_nodes(source), source, matches),
        None => seq![],
    }
}

/// The unchanged production calls of a source.
pub open spec fn source_calls(source: Seq<u8>, ranges: Seq<LineRange>) -> Seq<CallEdge> {
    match tree::rust_matches(source, tree::query_text(RustQuery::Tags)) {
        Some(matches) => calls::calls(
            tree::rust_nodes(source),
            source,
            source_definitions(source),
            ranges,
            matches,
        ),
        None => seq![],
    }
}

/// Index at which a definition that starts at `start` is inserted behind those that start there
/// or earlier.
pub open spec fn insertion_point(sorted: Seq<definitions::DefinitionView>, start: usize) -> int
    decreases sorted.len(),
{
    if sorted.len() == 0 || sorted.last().span.start <= start {
        sorted.len() as int
    } else {
        insertion_point(sorted.drop_last(), start)
    }
}

/// Whether a definition is a callable that overlaps a changed line.
pub open spec fn is_changed_callable(
    definition: definitions::DefinitionView,
    ranges: Seq<LineRange>,
) -> bool {
    definition.callable && definitions::is_changed(definition, ranges)
}

/// The callables that overlap a changed line, in the order of their first bytes.
pub open spec fn changed_callables(
    definitions: Seq<definitions::DefinitionView>,
    ranges: Seq<LineRange>,
) -> Seq<definitions::DefinitionView>
    decreases definitions.len(),
{
    if definitions.len() == 0 {
        seq![]
    } else {
        let before = changed_callables(definitions.drop_last(), ranges);
        let definition = definitions.last();
        if is_changed_callable(definition, ranges) {
            before.insert(insertion_point(before, definition.span.start), definition)
        } else {
            before
        }
    }
}

/// Whether definitions are in the order of their first bytes.
pub open spec fn in_source_order(definitions: Seq<definitions::DefinitionView>) -> bool {
    forall|i: int, j: int|
        0 <= i < j < definitions.len() ==> (#[trigger] definitions[i]).span.start <= (
        #[trigger] definitions[j]).span.start
}

/// The definition before an insertion point starts no later, and those from it on start later.
pub proof fn lemma_insertion_point(sorted: Seq<definitions::DefinitionView>, start: usize)
    ensures
        0 <= insertion_point(sorted, start) <= sorted.len(),
        insertion_point(sorted, start) > 0 ==> sorted[insertion_point(
            sorted,
            start,
        ) - 1].span.start <= start,
        forall|i: int|
            insertion_point(sorted, start) <= i < sorted.len() ==> start < (
            #[trigger] sorted[i]).span.start,
    decreases sorted.len(),
{
    if sorted.len() > 0 && sorted.last().span.start > start {
        lemma_insertion_point(sorted.drop_last(), start);
        assert forall|i: int| insertion_point(sorted, start) <= i < sorted.len() implies start < (
        #[trigger] sorted[i]).span.start by {
            if i < sorted.len() - 1 {
                assert(sorted.drop_last()[i] == sorted[i]);
            }
        }
    }
}

/// The changed callables are those definitions that are callable and overlap a changed line, in
/// the order in which they start.
pub proof fn lemma_changed_callables_are_sorted(
    definitions: Seq<definitions::DefinitionView>,
    ranges: Seq<LineRange>,
)
    ensures
        in_source_order(changed_callables(definitions, ranges)),
        forall|definition: definitions::DefinitionView| #[trigger]
            changed_callables(definitions, ranges).contains(definition) <==> (definitions.contains(
                definition,
            ) && is_changed_callable(definition, ranges)),
    decreases definitions.len(),
{
    if definitions.len() > 0 {
        let rest = definitions.drop_last();
        let last = definitions.last();
        lemma_changed_callables_are_sorted(rest, ranges);
        let before = changed_callables(rest, ranges);
        let after = changed_callables(definitions, ranges);
        let at = insertion_point(before, last.span.start);
        lemma_insertion_point(before, last.span.start);
        assert(definitions[definitions.len() - 1] == last);
        assert forall|definition: definitions::DefinitionView|
            definitions.contains(definition) <==> (rest.contains(definition) || definition
                == last) by {
            if definitions.contains(definition) && definition != last {
                let i = choose|i: int| 0 <= i < definitions.len() && definitions[i] == definition;
                assert(rest[i] == definition);
            }
            if rest.contains(definition) {
                let i = choose|i: int| 0 <= i < rest.len() && rest[i] == definition;
                assert(definitions[i] == definition);
            }
        }
        if is_changed_callable(last, ranges) {
            assert(after[at] == last);
            assert forall|definition: definitions::DefinitionView|
                after.contains(definition) <==> (before.contains(definition) || definition
                    == last) by {
                if after.contains(definition) && definition != last {
                    let i = choose|i: int| 0 <= i < after.len() && after[i] == definition;
                    assert(before[if i < at { i } else { i - 1 }] == definition);
                }
                if before.contains(definition) {
                    let i = choose|i: int| 0 <= i < before.len() && before[i] == definition;
                    assert(after[if i < at { i } else { i + 1 }] == definition);
                }
            }
            assert forall|i: int, j: int| 0 <= i < j < after.len() implies (
            #[trigger] after[i]).span.start <= (#[trigger] after[j]).span.start by {
                let old_i = if i < at { i } else { i - 1 };
                let old_j = if j < at { j } else { j - 1 };
                if i == at {
                    assert(after[j] == before[old_j]);
                } else if j == at {
                    assert(after[i] == before[i]);
                    assert(before[i].span.start <= before[at - 1].span.start);
                } else {
                    assert(after[i] == before[old_i] && after[j] == before[old_j]);
                }
            }
        }
    }
}

/// The source text of the first capture with a name.
pub open spec fn named_text(
    source: Seq<u8>,
    captures: Seq<tree::CaptureView>,
    name: Seq<char>,
) -> Option<Seq<char>> {
    match definitions::capture_named(captures, name) {
        Some(capture) => definitions::captured_text(source, capture),
        None => None,
    }
}

/// Whether a match of the call query calls a free function by its name, or an associated function
/// through its type.
pub open spec fn calls_definition(
    source: Seq<u8>,
    captures: Seq<tree::CaptureView>,
    definition: definitions::DefinitionView,
) -> bool {
    match definition.impl_type {
        None => named_text(source, captures, "function"@) == Some(definition.name),
        Some(owner) => named_text(source, captures, "type"@) == Some(owner) && named_text(
            source,
            captures,
            "method"@,
        ) == Some(definition.name),
    }
}

/// Index of the first changed callable that a match calls, or their number where it calls none.
pub open spec fn called_index(
    source: Seq<u8>,
    captures: Seq<tree::CaptureView>,
    changed: Seq<definitions::DefinitionView>,
) -> int
    decreases changed.len(),
{
    if changed.len() == 0 || calls_definition(source, captures, changed[0]) {
        0
    } else {
        1 + called_index(source, captures, changed.skip(1))
    }
}

/// The node of the call that a match of the call query is.
pub open spec fn matched_node(file: IndexedFileView, captures: Seq<tree::CaptureView>) -> Option<
    int,
> {
    match definitions::capture_named(captures, "call"@) {
        Some(capture) => tree::located(tree::rust_nodes(file.source), capture),
        None => None,
    }
}

/// The call site that a match of the call query is: an unchanged production call within an
/// unchanged callable.
pub open spec fn matched_site(file: IndexedFileView, captures: Seq<tree::CaptureView>) -> Option<
    CallSiteView,
> {
    let nodes = tree::rust_nodes(file.source);
    match matched_node(file, captures) {
        Some(call) => if hunk::row_in(nodes[call].start_row as int, file.changed)
            || source::in_test(nodes, file.source, call) {
            None
        } else {
            match (
                calls::enclosing(nodes, source_definitions(file.source), call),
                source::row_text(file.source, nodes[call].start_row as int),
            ) {
                (Some(caller), Some(line)) => if definitions::is_changed(caller, file.changed) {
                    None
                } else {
                    Some(CallSiteView { path: file.path, caller: caller.label, call: line })
                },
                _ => None,
            }
        },
        None => None,
    }
}

/// Call sites with the one that a match is, unless its callable has as many as are shown.
pub open spec fn with_site(
    file: IndexedFileView,
    captures: Seq<tree::CaptureView>,
    changed: Seq<definitions::DefinitionView>,
    sites: Seq<Seq<CallSiteView>>,
) -> Seq<Seq<CallSiteView>> {
    let at = called_index(file.source, captures, changed);
    match matched_site(file, captures) {
        Some(site) => if at < changed.len() && sites[at].len()
            < MAX_EXTERNAL_CALLERS_PER_CALLABLE {
            sites.update(at, sites[at].push(site))
        } else {
            sites
        },
        None => sites,
    }
}

/// Call sites with those of the matches in one file.
pub open spec fn with_sites(
    file: IndexedFileView,
    matches: Seq<Seq<tree::CaptureView>>,
    changed: Seq<definitions::DefinitionView>,
    sites: Seq<Seq<CallSiteView>>,
) -> Seq<Seq<CallSiteView>>
    decreases matches.len(),
{
    if matches.len() == 0 {
        sites
    } else {
        with_site(
            file,
            matches.last(),
            changed,
            with_sites(file, matches.drop_last(), changed, sites),
        )
    }
}

/// Call sites with those in one file.
pub open spec fn with_file(
    file: IndexedFileView,
    changed: Seq<definitions::DefinitionView>,
    sites: Seq<Seq<CallSiteView>>,
) -> Result<Seq<Seq<CallSiteView>>, SyntaxError> {
    match definitions_error(file.source) {
        Some(error) => Err(error),
        None => match tree::rust_matches(file.source, tree::query_text(RustQuery::Calls)) {
            None => Err(SyntaxError::CallQuery),
            Some(matches) => Ok(with_sites(file, matches, changed, sites)),
        },
    }
}

/// The call sites in the Rust files of a repository but the changed one.
pub open spec fn external_sites(
    changed_path: Seq<u8>,
    files: Seq<IndexedFileView>,
    changed: Seq<definitions::DefinitionView>,
) -> Result<Seq<Seq<CallSiteView>>, SyntaxError>
    decreases files.len(),
{
    if files.len() == 0 {
        Ok(Seq::new(changed.len(), |i: int| Seq::<CallSiteView>::empty()))
    } else {
        match external_sites(changed_path, files.drop_last(), changed) {
            Err(error) => Err(error),
            Ok(sites) => {
                let file = files.last();
                if path::same(file.path, changed_path) || language::detected(
                    file.path,
                    file.source,
                ) != Some(Language::Rust) {
                    Ok(sites)
                } else {
                    with_file(file, changed, sites)
                }
            },
        }
    }
}

/// A changed callable with what it affects, where that is anything.
pub open spec fn affected_by(
    definitions: Seq<definitions::DefinitionView>,
    edges: Seq<CallEdge>,
    definition: definitions::DefinitionView,
    sites: Seq<CallSiteView>,
) -> Option<AffectedView> {
    let entry_points = calls::reached_entry_points(definitions, edges, definition.span);
    if definition.public || entry_points.len() > 0 || sites.len() > 0 {
        Some(
            AffectedView {
                changed: definition.declaration,
                public: definition.public,
                documentation: if definition.public {
                    definition.documentation
                } else {
                    None
                },
                entry_points,
                external_callers: sites,
            },
        )
    } else {
        None
    }
}

/// What the changed callables affect.
pub open spec fn affected_by_all(
    definitions: Seq<definitions::DefinitionView>,
    edges: Seq<CallEdge>,
    changed: Seq<definitions::DefinitionView>,
    sites: Seq<Seq<CallSiteView>>,
) -> Seq<AffectedView>
    decreases changed.len(),
{
    if changed.len() == 0 {
        seq![]
    } else {
        let before = affected_by_all(definitions, edges, changed.drop_last(), sites);
        match affected_by(definitions, edges, changed.last(), sites[changed.len() - 1]) {
            Some(code) => before.push(code),
            None => before,
        }
    }
}

/// What the changed lines of a source affect, with callers from the other files.
pub open spec fn affected(
    path: Seq<u8>,
    source: Seq<u8>,
    ranges: Seq<LineRange>,
    files: Seq<IndexedFileView>,
) -> Result<Seq<AffectedView>, SyntaxError> {
    match definitions_error(source) {
        Some(error) => Err(error),
        None => {
            let definitions = source_definitions(source);
            let changed = changed_callables(definitions, ranges);
            match external_sites(path, files, changed) {
                Err(error) => Err(error),
                Ok(sites) => Ok(
                    affected_by_all(definitions, source_calls(source, ranges), changed, sites),
                ),
            }
        },
    }
}

/// What a result holds.
pub open spec fn affected_result(result: Result<Vec<AffectedCode>, SyntaxError>) -> Result<
    Seq<AffectedView>,
    SyntaxError,
> {
    match result {
        Ok(code) => Ok(affected_views(code@)),
        Err(error) => Err(error),
    }
}

/// The definitions with the given indexes.
pub open spec fn selected(definitions: Seq<Definition>, indexes: Seq<usize>) -> Seq<
    definitions::DefinitionView,
> {
    indexes.map_values(|index: usize| definitions[index as int]@)
}

/// Whether every index is that of an item.
pub open spec fn are_indexes(indexes: Seq<usize>, len: nat) -> bool {
    forall|i: int| 0 <= i < indexes.len() ==> (#[trigger] indexes[i]) < len
}

/// The source text of the first capture with a name.
fn text_named(source: &[u8], captures: &[Capture], name: &str) -> (result: Option<String>)
    ensures
        text::optional_text(result) == named_text(
            source@,
            tree::capture_views(captures@),
            name@,
        ),
{
    match definitions::find_capture(captures, name) {
        Some(at) => definitions::capture_text(source, &captures[at]),
        None => None,
    }
}

/// Whether an optional text is the given one.
fn is_text(value: &Option<String>, expected: &str) -> (result: bool)
    ensures
        result == (text::optional_text(*value) == Some(expected@)),
{
    match value {
        Some(found) => text::same_text(found, expected),
        None => false,
    }
}

/// Check whether a query match calls a changed free function or associated method.
pub fn external_call_matches(source: &[u8], captures: &[Capture], definition: &Definition) -> (result:
    bool)
    ensures
        result == calls_definition(source@, tree::capture_views(captures@), definition@),
{
    match &definition.impl_type {
        None => is_text(&text_named(source, captures, "function"), &definition.name),
        Some(owner) => is_text(&text_named(source, captures, "type"), owner) && is_text(
            &text_named(source, captures, "method"),
            &definition.name,
        ),
    }
}

/// Index of the first changed callable that a match calls.
fn find_called(
    source: &[u8],
    captures: &[Capture],
    definitions: &[Definition],
    changed: &[usize],
) -> (at: usize)
    requires
        are_indexes(changed@, definitions@.len()),
    ensures
        at == called_index(
            source@,
            tree::capture_views(captures@),
            selected(definitions@, changed@),
        ),
        at <= changed@.len(),
{
    let ghost views = selected(definitions@, changed@);
    let ghost found = tree::capture_views(captures@);
    assert(views.skip(0) =~= views);
    for i in 0..changed.len()
        invariant
            are_indexes(changed@, definitions@.len()),
            views == selected(definitions@, changed@),
            found == tree::capture_views(captures@),
            called_index(source@, found, views) == i + called_index(
                source@,
                found,
                views.skip(i as int),
            ),
    {
        assert(changed@[i as int] < definitions@.len());
        assert(views.skip(i as int)[0] == definitions@[changed@[i as int] as int]@);
        assert(views.skip(i as int).skip(1) =~= views.skip(i + 1));
        if external_call_matches(source, captures, &definitions[changed[i]]) {
            return i;
        }
    }
    changed.len()
}

/// The call site that a match of the call query is.
fn site_of(
    file: &IndexedFile,
    syntax: &SyntaxTree,
    definitions: &[Definition],
    captures: &[Capture],
) -> (result: Option<ExternalCallSite>)
    requires
        syntax@ == tree::rust_nodes(file.source@),
        definitions::definition_views(definitions@) == source_definitions(file.source@),
    ensures
        match result {
            Some(site) => matched_site(file@, tree::capture_views(captures@)) == Some(site@),
            None => matched_site(file@, tree::capture_views(captures@)) is None,
        },
{
    let source = file.source.as_slice();
    match definitions::find_capture(captures, "call") {
        Some(capture) => match syntax.located(&captures[capture]) {
            Some(call) => {
                let row = syntax.node(call).start_row;
                if hunk::changed_line(row, &file.changed) || source::is_test_context(
                    syntax,
                    source,
                    call,
                ) {
                    return None;
                }
                let caller = calls::enclosing_caller(syntax, definitions, call);
                match (caller, source::source_line(source, row)) {
                    (Some(at), Some(line)) => {
                        if definitions::overlaps_changed_lines(&definitions[at], &file.changed) {
                            return None;
                        }
                        Some(
                            ExternalCallSite {
                                path: file.path.copied(),
                                caller: definitions[at].label.clone(),
                                call: line,
                            },
                        )
                    },
                    _ => None,
                }
            },
            None => None,
        },
        None => None,
    }
}

/// A parsed source with its definitions and the matches of the tag query.
struct Tagged {
    parsed: ParsedSource,
    matches: Vec<Vec<Capture>>,
    definitions: Vec<Definition>,
}

/// Parse a source and index its definitions.
fn tag(source: &[u8]) -> (result: Result<Tagged, SyntaxError>)
    ensures
        match result {
            Ok(tagged) => definitions_error(source@) is None && tagged.parsed.source() == source@
                && tagged.parsed.nodes() == tree::rust_nodes(source@) && tree::rust_matches(
                source@,
                tree::query_text(RustQuery::Tags),
            ) == Some(tree::match_views(tagged.matches@)) && definitions::definition_views(
                tagged.definitions@,
            ) == source_definitions(source@),
            Err(error) => definitions_error(source@) == Some(error),
        },
{
    let parsed = match ParsedSource::parse(source) {
        Ok(parsed) => parsed,
        Err(SyntaxFailure::Grammar) => return Err(SyntaxError::Grammar),
        Err(SyntaxFailure::Parse) => return Err(SyntaxError::Parse),
        Err(SyntaxFailure::Query) => return Err(SyntaxError::TagQuery),
    };
    match parsed.matches(source, RustQuery::Tags) {
        Ok(matches) => {
            let definitions = definitions::definitions(parsed.syntax(), source, &matches);
            Ok(Tagged { parsed, matches, definitions })
        },
        Err(_) => Err(SyntaxError::TagQuery),
    }
}

/// Collect direct external calls from one Rust source file.
pub fn collect_external_callers(
    file: &IndexedFile,
    definitions: &[Definition],
    changed: &[usize],
    sites: &mut Vec<Vec<ExternalCallSite>>,
) -> (result: Result<(), SyntaxError>)
    requires
        are_indexes(changed@, definitions@.len()),
        old(sites)@.len() == changed@.len(),
    ensures
        final(sites)@.len() == old(sites)@.len(),
        match result {
            Ok(()) => with_file(
                file@,
                selected(definitions@, changed@),
                all_site_views(old(sites)@),
            ) == Ok::<_, SyntaxError>(all_site_views(final(sites)@)),
            Err(error) => with_file(
                file@,
                selected(definitions@, changed@),
                all_site_views(old(sites)@),
            ) == Err::<Seq<Seq<CallSiteView>>, _>(error),
        },
{
    let source = file.source.as_slice();
    let tagged = match tag(source) {
        Ok(tagged) => tagged,
        Err(error) => return Err(error),
    };
    let matches = match tagged.parsed.matches(source, RustQuery::Calls) {
        Ok(matches) => matches,
        Err(_) => return Err(SyntaxError::CallQuery),
    };
    let syntax = tagged.parsed.syntax();
    let ghost start = all_site_views(sites@);
    let ghost views = tree::match_views(matches@);
    let ghost targets = selected(definitions@, changed@);
    for i in 0..matches.len()
        invariant
            are_indexes(changed@, definitions@.len()),
            sites@.len() == changed@.len(),
            source@ == file.source@,
            syntax@ == tree::rust_nodes(source@),
            definitions::definition_views(tagged.definitions@) == source_definitions(source@),
            views == tree::match_views(matches@),
            targets == selected(definitions@, changed@),
            all_site_views(sites@) == with_sites(
                file@,
                views.take(i as int),
                targets,
                start,
            ),
    {
        assert(views.take(i + 1).drop_last() =~= views.take(i as int));
        assert(views.take(i + 1).last() == tree::capture_views(matches@[i as int]@));
        let ghost before = all_site_views(sites@);
        let at = find_called(source, &matches[i], definitions, changed);
        if at < changed.len() {
            assert(before[at as int] == site_views(sites@[at as int]@));
            if sites[at].len() < MAX_EXTERNAL_CALLERS_PER_CALLABLE {
                if let Some(site) = site_of(file, syntax, &tagged.definitions, &matches[i]) {
                    let ghost of_one = sites@[at as int]@;
                    let ghost added = site@;
                    sites[at].push(site);
                    assert(site_views(sites@[at as int]@) =~= site_views(of_one).push(added));
                    assert(all_site_views(sites@) =~= before.update(
                        at as int,
                        before[at as int].push(added),
                    ));
                }
            }
        }
    }
    assert(views.take(matches@.len() as int) =~= views);
    Ok(())
}

/// Find bounded direct callers of changed functions and methods in other Rust files.
pub fn external_callers(
    changed_path: &RepoPath,
    files: &[IndexedFile],
    definitions: &[Definition],
    changed: &[usize],
) -> (result: Result<Vec<Vec<ExternalCallSite>>, SyntaxError>)
    requires
        are_indexes(changed@, definitions@.len()),
    ensures
        match result {
            Ok(sites) => sites@.len() == changed@.len() && external_sites(
                changed_path@,
                file_views(files@),
                selected(definitions@, changed@),
            ) == Ok::<_, SyntaxError>(all_site_views(sites@)),
            Err(error) => external_sites(
                changed_path@,
                file_views(files@),
                selected(definitions@, changed@),
            ) == Err::<Seq<Seq<CallSiteView>>, _>(error),
        },
{
    let ghost views = file_views(files@);
    let ghost targets = selected(definitions@, changed@);
    let mut sites: Vec<Vec<ExternalCallSite>> = Vec::new();
    for i in 0..changed.len()
        invariant
            sites@.len() == i,
            forall|j: int| 0 <= j < i ==> (#[trigger] sites@[j])@.len() == 0,
    {
        sites.push(Vec::new());
    }
    assert(all_site_views(sites@) =~= Seq::new(
        targets.len(),
        |i: int| Seq::<CallSiteView>::empty(),
    )) by {
        assert forall|i: int| 0 <= i < sites@.len() implies #[trigger] all_site_views(sites@)[i]
            == Seq::<CallSiteView>::empty() by {
            assert(sites@[i]@.len() == 0);
            assert(site_views(sites@[i]@) =~= Seq::<CallSiteView>::empty());
        }
    }
    for i in 0..files.len()
        invariant
            are_indexes(changed@, definitions@.len()),
            sites@.len() == changed@.len(),
            views == file_views(files@),
            targets == selected(definitions@, changed@),
            external_sites(changed_path@, views.take(i as int), targets) == Ok::<_, SyntaxError>(
                all_site_views(sites@),
            ),
    {
        assert(views.take(i + 1).drop_last() =~= views.take(i as int));
        assert(views.take(i + 1).last() == files@[i as int]@);
        let file = &files[i];
        let skipped = file.path.same_as(changed_path) || !is_rust(&file.path, &file.source);
        if !skipped {
            match collect_external_callers(file, definitions, changed, &mut sites) {
                Ok(()) => {},
                Err(error) => {
                    proof {
                        lemma_external_sites_fail(changed_path@, views, targets, i + 1);
                    }
                    return Err(error);
                },
            }
        }
    }
    assert(views.take(files@.len() as int) =~= views);
    Ok(sites)
}

/// A fault in one of the first files is the fault of all.
proof fn lemma_external_sites_fail(
    changed_path: Seq<u8>,
    files: Seq<IndexedFileView>,
    changed: Seq<definitions::DefinitionView>,
    count: int,
)
    requires
        0 <= count <= files.len(),
        external_sites(changed_path, files.take(count), changed) is Err,
    ensures
        external_sites(changed_path, files, changed) == external_sites(
            changed_path,
            files.take(count),
            changed,
        ),
    decreases files.len(),
{
    if count < files.len() {
        assert(files.drop_last().take(count) =~= files.take(count));
        lemma_external_sites_fail(changed_path, files.drop_last(), changed, count);
    } else {
        assert(files.take(count) =~= files);
    }
}

/// The lines of the contents at a path that changes change.
pub open spec fn lines_changed(changes: Seq<CommitChange>, path: Seq<u8>) -> Seq<LineRange>
    decreases changes.len(),
{
    if changes.len() == 0 {
        seq![]
    } else {
        let before = lines_changed(changes.drop_last(), path);
        match change::version_after(changes.last().kind) {
            Some(version) => if path::same(version.path@, path) {
                before + side_ranges(changes.last().hunks@, true)
            } else {
                before
            },
            None => before,
        }
    }
}

/// Find the lines of the contents at a path that changes change.
pub fn changed_lines(changes: &[CommitChange], path: &RepoPath) -> (ranges: Vec<LineRange>)
    ensures
        ranges@ == lines_changed(changes@, path@),
{
    let mut ranges: Vec<LineRange> = Vec::new();
    assert(changes@.take(0) =~= seq![]);
    for i in 0..changes.len()
        invariant
            ranges@ == lines_changed(changes@.take(i as int), path@),
    {
        assert(changes@.take(i + 1).drop_last() =~= changes@.take(i as int));
        assert(changes@.take(i + 1).last() == changes@[i as int]);
        if let Some(version) = changes[i].after() {
            if version.path.same_as(path) {
                let mut found = ranges_on_side(&changes[i].hunks, true);
                ranges.append(&mut found);
            }
        }
    }
    assert(changes@.take(changes@.len() as int) =~= changes@);
    ranges
}

/// The changed ranges on one side of hunks.
fn ranges_on_side(hunks: &[DiffHunk], after: bool) -> (ranges: Vec<LineRange>)
    ensures
        ranges@ == side_ranges(hunks@, after),
{
    let mut ranges: Vec<LineRange> = Vec::new();
    for i in 0..hunks.len()
        invariant
            ranges@ == side_ranges(hunks@.take(i as int), after),
    {
        assert(hunks@.take(i + 1).drop_last() =~= hunks@.take(i as int));
        let side = if after {
            hunks[i].after
        } else {
            hunks[i].before
        };
        if let Some(range) = side {
            ranges.push(range);
        }
    }
    assert(hunks@.take(hunks@.len() as int) =~= hunks@);
    ranges
}

/// Whether a file is Rust source.
pub fn is_rust(path: &RepoPath, source: &[u8]) -> (result: bool)
    ensures
        result == (language::detected(path@, source@) == Some(Language::Rust)),
{
    match Language::detect(path, source) {
        Some(Language::Rust) => true,
        _ => false,
    }
}

/// Insert the index of a definition behind those that start where it does or earlier.
pub fn insert_by_start(definitions: &[Definition], indexes: &mut Vec<usize>, index: usize)
    requires
        index < definitions@.len(),
        are_indexes(old(indexes)@, definitions@.len()),
    ensures
        are_indexes(final(indexes)@, definitions@.len()),
        selected(definitions@, final(indexes)@) == selected(definitions@, old(indexes)@).insert(
            insertion_point(
                selected(definitions@, old(indexes)@),
                definitions@[index as int].span.start,
            ),
            definitions@[index as int]@,
        ),
{
    let start = definitions[index].span.start;
    let ghost before = selected(definitions@, indexes@);
    let mut at: usize = indexes.len();
    assert(before.take(at as int) =~= before);
    while at > 0 && definitions[indexes[at - 1]].span.start > start
        invariant
            are_indexes(indexes@, definitions@.len()),
            at <= indexes@.len(),
            before == selected(definitions@, indexes@),
            insertion_point(before, start) == insertion_point(before.take(at as int), start),
        decreases at,
    {
        assert(before.take(at as int).last() == definitions@[indexes@[at - 1] as int]@);
        assert(before.take(at as int).drop_last() =~= before.take(at - 1));
        at = at - 1;
    }
    assert(at > 0 ==> before.take(at as int).last() == definitions@[indexes@[at - 1] as int]@);
    indexes.insert(at, index);
    assert(selected(definitions@, indexes@) =~= before.insert(
        at as int,
        definitions@[index as int]@,
    ));
}

/// Find the callables that overlap a changed line, in the order of their first bytes.
pub fn find_changed(definitions: &[Definition], ranges: &[LineRange]) -> (changed: Vec<usize>)
    ensures
        are_indexes(changed@, definitions@.len()),
        selected(definitions@, changed@) == changed_callables(
            definitions::definition_views(definitions@),
            ranges@,
        ),
{
    let ghost views = definitions::definition_views(definitions@);
    let mut changed: Vec<usize> = Vec::new();
    assert(selected(definitions@, changed@) =~= seq![]);
    for i in 0..definitions.len()
        invariant
            views == definitions::definition_views(definitions@),
            are_indexes(changed@, definitions@.len()),
            selected(definitions@, changed@) == changed_callables(views.take(i as int), ranges@),
    {
        let definition = &definitions[i];
        assert(views.take(i + 1).drop_last() =~= views.take(i as int));
        assert(views.take(i + 1).last() == definition@);
        if definition.callable && definitions::overlaps_changed_lines(definition, ranges) {
            insert_by_start(definitions, &mut changed, i);
        }
    }
    assert(views.take(definitions@.len() as int) =~= views);
    changed
}

/// Parse a source and find its definitions.
pub fn find_definitions(source: &[u8]) -> (result: Result<Vec<Definition>, SyntaxError>)
    ensures
        match result {
            Ok(found) => definitions_error(source@) is None && definitions::definition_views(found@)
                == source_definitions(source@),
            Err(error) => definitions_error(source@) == Some(error),
        },
{
    match tag(source) {
        Ok(tagged) => Ok(tagged.definitions),
        Err(error) => Err(error),
    }
}

/// Extract affected code, attaching cross-file callers.
pub fn affected_code(path: &RepoPath, source: &[u8], ranges: &[LineRange], files: &[IndexedFile]) -> (result:
    Result<Vec<AffectedCode>, SyntaxError>)
    ensures
        affected_result(result) == affected(path@, source@, ranges@, file_views(files@)),
{
    let tagged = match tag(source) {
        Ok(tagged) => tagged,
        Err(error) => return Err(error),
    };
    let found = &tagged.definitions;
    let changed = find_changed(found, ranges);
    let edges = calls::reverse_call_graph(
        tagged.parsed.syntax(),
        source,
        found,
        ranges,
        &tagged.matches,
    );
    let sites = match external_callers(path, files, found, &changed) {
        Ok(sites) => sites,
        Err(error) => return Err(error),
    };
    let ghost known = source_definitions(source@);
    let ghost targets = selected(found@, changed@);
    let ghost all_sites = all_site_views(sites@);
    let mut code: Vec<AffectedCode> = Vec::new();
    assert(affected_views(code@) =~= seq![]);
    for i in 0..changed.len()
        invariant
            found@ == tagged.definitions@,
            are_indexes(changed@, found@.len()),
            sites@.len() == changed@.len(),
            known == definitions::definition_views(found@),
            targets == selected(found@, changed@),
            all_sites == all_site_views(sites@),
            affected_views(code@) == affected_by_all(
                known,
                edges@,
                targets.take(i as int),
                all_sites,
            ),
    {
        assert(targets.take(i + 1).drop_last() =~= targets.take(i as int));
        assert(changed@[i as int] < found@.len());
        let definition = &found[changed[i]];
        assert(targets.take(i + 1).last() == definition@);
        assert(all_sites[i as int] == site_views(sites@[i as int]@));
        let ghost before = affected_views(code@);
        let entry_points = calls::entry_points(found, &edges, definition.span);
        if definition.public || entry_points.len() > 0 || sites[i].len() > 0 {
            let documentation = match &definition.documentation {
                Some(summary) if definition.public => Some(summary.clone()),
                _ => None,
            };
            let item = AffectedCode {
                changed: definition.declaration.clone(),
                public: definition.public,
                documentation,
                entry_points,
                external_callers: copied_sites(&sites[i]),
            };
            code.push(item);
            assert(affected_views(code@) =~= before.push(item@));
        }
    }
    assert(targets.take(changed@.len() as int) =~= targets);
    Ok(code)
}

/// Equal call sites.
fn copied_sites(sites: &[ExternalCallSite]) -> (result: Vec<ExternalCallSite>)
    ensures
        site_views(result@) == site_views(sites@),
{
    let mut result: Vec<ExternalCallSite> = Vec::new();
    for i in 0..sites.len()
        invariant
            site_views(result@) =~= site_views(sites@).take(i as int),
    {
        let site = &sites[i];
        let copy = ExternalCallSite {
            path: site.path.copied(),
            caller: site.caller.clone(),
            call: site.call.clone(),
        };
        let ghost before = site_views(result@);
        result.push(copy);
        assert(site_views(result@) =~= before.push(copy@));
        assert(copy@ == site_views(sites@)[i as int]);
    }
    assert(site_views(result@) =~= site_views(sites@));
    result
}

/// Find affected code without cross-file callers.
pub fn local_affected_code(source: &[u8], ranges: &[LineRange]) -> (result: Result<
    Vec<AffectedCode>,
    SyntaxError,
>)
    ensures
        affected_result(result) == affected(seq![], source@, ranges@, seq![]),
{
    let path = RepoPath { bytes: Vec::new() };
    let files: Vec<IndexedFile> = Vec::new();
    assert(path@ =~= seq![]);
    assert(file_views(files@) =~= seq![]);
    affected_code(&path, source, ranges, &files)
}

/// The changed ranges on one side of hunks.
pub open spec fn side_ranges(hunks: Seq<DiffHunk>, after: bool) -> Seq<LineRange>
    decreases hunks.len(),
{
    if hunks.len() == 0 {
        seq![]
    } else {
        let before = side_ranges(hunks.drop_last(), after);
        let side = if after {
            hunks.last().after
        } else {
            hunks.last().before
        };
        match side {
            Some(range) => before.push(range),
            None => before,
        }
    }
}

/// The changed ranges of a version that holds source text, where there are any.
pub open spec fn readable_ranges(
    version: Option<FileVersion>,
    hunks: Seq<DiffHunk>,
    after: bool,
) -> Option<Seq<LineRange>> {
    match version {
        Some(version) => if change::is_blob_mode(version.mode) && side_ranges(hunks, after).len()
            > 0 {
            Some(side_ranges(hunks, after))
        } else {
            None
        },
        None => None,
    }
}

/// The changed ranges of a version, where its blob is to be read.
pub fn load_side(version: Option<&FileVersion>, hunks: &[DiffHunk], after: bool) -> (result: Option<
    Vec<LineRange>,
>)
    ensures
        match result {
            Some(ranges) => version matches Some(found) && readable_ranges(
                Some(*found),
                hunks@,
                after,
            ) == Some(ranges@),
            None => match version {
                Some(found) => readable_ranges(Some(*found), hunks@, after) is None,
                None => true,
            },
        },
{
    match version {
        Some(version) => {
            if !version.is_blob() {
                return None;
            }
            let ranges = ranges_on_side(hunks, after);
            if ranges.len() == 0 {
                None
            } else {
                Some(ranges)
            }
        },
        None => None,
    }
}

/// The blob of one side, as text that is to be examined.
pub open spec fn side_source(
    version: Option<FileVersion>,
    hunks: Seq<DiffHunk>,
    after: bool,
    blob: Option<Seq<u8>>,
) -> Option<(Seq<u8>, Seq<u8>, Seq<LineRange>)> {
    match (version, readable_ranges(version, hunks, after), blob) {
        (Some(version), Some(ranges), Some(source)) => Some((version.path@, source, ranges)),
        _ => None,
    }
}

/// The side of a change that is examined: the one after it, or else the one before it.
pub open spec fn examined_side(
    change: CommitChange,
    after: Option<Seq<u8>>,
    before: Option<Seq<u8>>,
) -> Option<(Seq<u8>, Seq<u8>, Seq<LineRange>)> {
    match side_source(change::version_after(change.kind), change.hunks@, true, after) {
        Some(side) => Some(side),
        None => side_source(change::version_before(change.kind), change.hunks@, false, before),
    }
}

/// The code that a change affects, where it changes Rust source and affects any.
pub open spec fn change_context(
    change: CommitChange,
    after: Option<Seq<u8>>,
    before: Option<Seq<u8>>,
    files: Seq<IndexedFileView>,
) -> Result<Option<SyntaxContextView>, SyntaxError> {
    match examined_side(change, after, before) {
        None => Ok(None),
        Some((path, source, ranges)) => if language::detected(path, source) != Some(
            Language::Rust,
        ) {
            Ok(None)
        } else {
            match affected(path, source, ranges, files) {
                Err(error) => Err(error),
                Ok(code) => if code.len() == 0 {
                    Ok(None)
                } else {
                    Ok(Some(SyntaxContextView { path, affected: code }))
                },
            }
        },
    }
}

/// The contents of an optional blob.
pub open spec fn blob_bytes(blob: Option<&[u8]>) -> Option<Seq<u8>> {
    match blob {
        Some(bytes) => Some(bytes@),
        None => None,
    }
}

/// Find the side of a change that is examined.
fn find_side<'a>(change: &CommitChange, after: Option<&'a [u8]>, before: Option<&'a [u8]>) -> (result:
    Option<(RepoPath, &'a [u8], Vec<LineRange>)>)
    ensures
        examined_side(*change, blob_bytes(after), blob_bytes(before)) == match result {
            Some((path, source, ranges)) => Some((path@, source@, ranges@)),
            None => None,
        },
{
    let new_version = change.after();
    let new_ranges = load_side(new_version, &change.hunks, true);
    if let (Some(version), Some(ranges), Some(source)) = (new_version, new_ranges, after) {
        return Some((version.path.copied(), source, ranges));
    }
    let old_version = change.before();
    let old_ranges = load_side(old_version, &change.hunks, false);
    if let (Some(version), Some(ranges), Some(source)) = (old_version, old_ranges, before) {
        return Some((version.path.copied(), source, ranges));
    }
    None
}

/// What a result holds.
pub open spec fn context_result(result: Result<Option<SyntaxContext>, SyntaxError>) -> Result<
    Option<SyntaxContextView>,
    SyntaxError,
> {
    match result {
        Ok(Some(context)) => Ok(Some(context@)),
        Ok(None) => Ok(None),
        Err(error) => Err(error),
    }
}

/// Extract affected code for one prospective-commit change.
///
/// `after` and `before` are the blobs of the sides that [`load_side`] names, and `files` are the
/// files of the working tree with their contents in the index. This supports Rust only. It
/// identifies changed functions and methods, then follows unchanged, direct same-file calls to
/// public production entry points.
///
/// A prompt shows both sides of a change: it is made from
/// [`evidence_for_change`](crate::generation::evidence::evidence_for_change), which takes the
/// callers in other files from the same [`affected_code`], and shows no entry points.
pub fn context_for_change(
    change: &CommitChange,
    after: Option<&[u8]>,
    before: Option<&[u8]>,
    files: &[IndexedFile],
) -> (result: Result<Option<SyntaxContext>, SyntaxError>)
    ensures
        context_result(result) == change_context(
            *change,
            blob_bytes(after),
            blob_bytes(before),
            file_views(files@),
        ),
{
    match find_side(change, after, before) {
        None => Ok(None),
        Some((path, source, ranges)) => {
            if !is_rust(&path, source) {
                return Ok(None);
            }
            match affected_code(&path, source, &ranges, files) {
                Err(error) => Err(error),
                Ok(code) => {
                    if code.len() == 0 {
                        Ok(None)
                    } else {
                        Ok(Some(SyntaxContext { path, affected: code }))
                    }
                },
            }
        },
    }
}

/// A change affects no code that is shown where it has no hunks.
pub proof fn lemma_changes_without_hunks_have_no_context(
    change: CommitChange,
    after: Option<Seq<u8>>,
    before: Option<Seq<u8>>,
    files: Seq<IndexedFileView>,
)
    requires
        change.hunks@.len() == 0,
    ensures
        change_context(change, after, before, files) == Ok::<_, SyntaxError>(
            None::<SyntaxContextView>,
        ),
{
}

/// Whether each callable has at most as many call sites as are shown.
pub open spec fn sites_are_bounded(sites: Seq<Seq<CallSiteView>>) -> bool {
    forall|i: int|
        0 <= i < sites.len() ==> (#[trigger] sites[i]).len() <= MAX_EXTERNAL_CALLERS_PER_CALLABLE
}

proof fn lemma_with_sites_is_bounded(
    file: IndexedFileView,
    matches: Seq<Seq<tree::CaptureView>>,
    changed: Seq<definitions::DefinitionView>,
    sites: Seq<Seq<CallSiteView>>,
)
    requires
        sites_are_bounded(sites),
        sites.len() == changed.len(),
    ensures
        sites_are_bounded(with_sites(file, matches, changed, sites)),
        with_sites(file, matches, changed, sites).len() == changed.len(),
    decreases matches.len(),
{
    if matches.len() > 0 {
        lemma_with_sites_is_bounded(file, matches.drop_last(), changed, sites);
        lemma_called_index(file.source, matches.last(), changed);
    }
}

proof fn lemma_called_index(
    source: Seq<u8>,
    captures: Seq<tree::CaptureView>,
    changed: Seq<definitions::DefinitionView>,
)
    ensures
        0 <= called_index(source, captures, changed) <= changed.len(),
    decreases changed.len(),
{
    if changed.len() > 0 && !calls_definition(source, captures, changed[0]) {
        lemma_called_index(source, captures, changed.skip(1));
    }
}

proof fn lemma_external_sites_are_bounded(
    changed_path: Seq<u8>,
    files: Seq<IndexedFileView>,
    changed: Seq<definitions::DefinitionView>,
)
    ensures
        external_sites(changed_path, files, changed) matches Ok(sites) ==> sites_are_bounded(sites)
            && sites.len() == changed.len(),
    decreases files.len(),
{
    if files.len() > 0 {
        lemma_external_sites_are_bounded(changed_path, files.drop_last(), changed);
        if let Ok(sites) = external_sites(changed_path, files.drop_last(), changed) {
            if let Some(matches) = tree::rust_matches(files.last().source, tree::query_text(RustQuery::Calls)) {
                lemma_with_sites_is_bounded(files.last(), matches, changed, sites);
            }
        }
    }
}

/// Whether affected code is worth showing, holds at most as many entry points and call sites as are
/// shown for one callable, and documentation only of a public one.
pub open spec fn is_shown_code(code: AffectedView) -> bool {
    &&& code.public || code.entry_points.len() > 0 || code.external_callers.len() > 0
    &&& code.entry_points.len() <= calls::MAX_ENTRY_POINTS_PER_CALLABLE
    &&& code.external_callers.len() <= MAX_EXTERNAL_CALLERS_PER_CALLABLE
    &&& code.documentation is Some ==> code.public
}

/// Whether each of the affected codes is worth showing and bounded.
pub open spec fn are_shown_codes(codes: Seq<AffectedView>) -> bool {
    forall|i: int| 0 <= i < codes.len() ==> is_shown_code(#[trigger] codes[i])
}

/// Every changed callable that is reported is public, or is reached by an entry point or a caller
/// in another file, with no more of either than are shown for one callable, and with documentation
/// only where it is public.
pub proof fn lemma_affected_code_is_bounded(
    path: Seq<u8>,
    source: Seq<u8>,
    ranges: Seq<LineRange>,
    files: Seq<IndexedFileView>,
)
    ensures
        affected(path, source, ranges, files) matches Ok(code) ==> are_shown_codes(code),
{
    let known = source_definitions(source);
    let changed = changed_callables(known, ranges);
    lemma_external_sites_are_bounded(path, files, changed);
    if let Ok(sites) = external_sites(path, files, changed) {
        lemma_affected_by_all_is_bounded(known, source_calls(source, ranges), changed, sites);
    }
}

proof fn lemma_affected_by_all_is_bounded(
    definitions: Seq<definitions::DefinitionView>,
    edges: Seq<CallEdge>,
    changed: Seq<definitions::DefinitionView>,
    sites: Seq<Seq<CallSiteView>>,
)
    requires
        sites_are_bounded(sites),
        changed.len() <= sites.len(),
    ensures
        are_shown_codes(affected_by_all(definitions, edges, changed, sites)),
    decreases changed.len(),
{
    if changed.len() > 0 {
        lemma_affected_by_all_is_bounded(definitions, edges, changed.drop_last(), sites);
        let before = affected_by_all(definitions, edges, changed.drop_last(), sites);
        let of_last = sites[changed.len() - 1];
        assert(of_last.len() <= MAX_EXTERNAL_CALLERS_PER_CALLABLE);
        if let Some(code) = affected_by(definitions, edges, changed.last(), of_last) {
            assert(is_shown_code(code));
            assert forall|i: int| 0 <= i < before.len() + 1 implies is_shown_code(
                #[trigger] before.push(code)[i],
            ) by {
                if i < before.len() {
                    assert(before.push(code)[i] == before[i]);
                }
            }
        }
    }
}

/// Whether a match of the call query in a file is a call on an unchanged line within an unchanged
/// callable.
pub open spec fn is_unchanged_call(file: IndexedFileView, captures: Seq<tree::CaptureView>) -> bool {
    let nodes = tree::rust_nodes(file.source);
    match matched_node(file, captures) {
        Some(call) => !hunk::row_in(nodes[call].start_row as int, file.changed) && (
        match calls::enclosing(nodes, source_definitions(file.source), call) {
            Some(caller) => !definitions::is_changed(caller, file.changed),
            None => false,
        }),
        None => false,
    }
}

/// Whether a call site is an unchanged call in a file.
pub open spec fn is_unchanged_site(file: IndexedFileView, site: CallSiteView) -> bool {
    exists|captures: Seq<tree::CaptureView>|
        #![trigger matched_site(file, captures)]
        matched_site(file, captures) == Some(site) && is_unchanged_call(file, captures)
}

/// Whether all call sites are unchanged calls in files other than the changed one.
pub open spec fn are_unchanged_sites(
    changed_path: Seq<u8>,
    files: Seq<IndexedFileView>,
    sites: Seq<Seq<CallSiteView>>,
) -> bool {
    forall|i: int, j: int|
        0 <= i < sites.len() && 0 <= j < sites[i].len() ==> is_unchanged_in(
            changed_path,
            files,
            #[trigger] sites[i][j],
        )
}

/// Whether a call site is an unchanged call in one of the files other than the changed one.
pub open spec fn is_unchanged_in(
    changed_path: Seq<u8>,
    files: Seq<IndexedFileView>,
    site: CallSiteView,
) -> bool {
    exists|f: int|
        0 <= f < files.len() && !path::same(files[f].path, changed_path) && is_unchanged_site(
            #[trigger] files[f],
            site,
        )
}

proof fn lemma_with_sites_are_unchanged(
    changed_path: Seq<u8>,
    files: Seq<IndexedFileView>,
    matches: Seq<Seq<tree::CaptureView>>,
    changed: Seq<definitions::DefinitionView>,
    sites: Seq<Seq<CallSiteView>>,
)
    requires
        files.len() > 0,
        !path::same(files.last().path, changed_path),
        sites.len() == changed.len(),
        are_unchanged_sites(changed_path, files, sites),
    ensures
        are_unchanged_sites(
            changed_path,
            files,
            with_sites(files.last(), matches, changed, sites),
        ),
        with_sites(files.last(), matches, changed, sites).len() == changed.len(),
    decreases matches.len(),
{
    if matches.len() > 0 {
        let file = files.last();
        lemma_with_sites_are_unchanged(changed_path, files, matches.drop_last(), changed, sites);
        lemma_called_index(file.source, matches.last(), changed);
        let before = with_sites(file, matches.drop_last(), changed, sites);
        let after = with_sites(file, matches, changed, sites);
        assert forall|i: int, j: int|
            0 <= i < after.len() && 0 <= j < after[i].len() implies is_unchanged_in(
            changed_path,
            files,
            #[trigger] after[i][j],
        ) by {
            if j < before[i].len() {
                assert(after[i][j] == before[i][j]);
            } else {
                assert(matched_site(file, matches.last()) == Some(after[i][j]));
                assert(is_unchanged_site(file, after[i][j]));
                assert(files[files.len() - 1] == file);
            }
        }
    }
}

/// Every caller that is reported is an unchanged call in another file: neither its line nor its
/// callable is changed.
pub proof fn lemma_external_callers_are_unchanged(
    changed_path: Seq<u8>,
    files: Seq<IndexedFileView>,
    changed: Seq<definitions::DefinitionView>,
)
    ensures
        external_sites(changed_path, files, changed) matches Ok(sites) ==> are_unchanged_sites(
            changed_path,
            files,
            sites,
        ),
    decreases files.len(),
{
    if files.len() > 0 {
        let rest = files.drop_last();
        lemma_external_callers_are_unchanged(changed_path, rest, changed);
        lemma_external_sites_are_bounded(changed_path, rest, changed);
        if let Ok(sites) = external_sites(changed_path, rest, changed) {
            assert forall|i: int, j: int|
                0 <= i < sites.len() && 0 <= j < sites[i].len() implies is_unchanged_in(
                changed_path,
                files,
                #[trigger] sites[i][j],
            ) by {
                assert(is_unchanged_in(changed_path, rest, sites[i][j]));
                let f = choose|f: int|
                    0 <= f < rest.len() && !path::same(rest[f].path, changed_path)
                        && is_unchanged_site(#[trigger] rest[f], sites[i][j]);
                assert(files[f] == rest[f]);
            }
            if !path::same(files.last().path, changed_path) {
                if let Some(matches) = tree::rust_matches(files.last().source, tree::query_text(RustQuery::Calls)) {
                    lemma_with_sites_are_unchanged(changed_path, files, matches, changed, sites);
                }
            }
        }
    }
}

/// Whether all callers in other files that affected codes hold are unchanged.
pub open spec fn have_unchanged_callers(
    changed_path: Seq<u8>,
    files: Seq<IndexedFileView>,
    codes: Seq<AffectedView>,
) -> bool {
    forall|i: int, j: int|
        0 <= i < codes.len() && 0 <= j < codes[i].external_callers.len() ==> is_unchanged_in(
            changed_path,
            files,
            #[trigger] codes[i].external_callers[j],
        )
}

/// Affected code holds only unchanged callers in other files.
pub proof fn lemma_affected_code_has_unchanged_callers(
    path: Seq<u8>,
    source: Seq<u8>,
    ranges: Seq<LineRange>,
    files: Seq<IndexedFileView>,
)
    ensures
        affected(path, source, ranges, files) matches Ok(codes) ==> have_unchanged_callers(
            path,
            files,
            codes,
        ),
{
    let known = source_definitions(source);
    let changed = changed_callables(known, ranges);
    lemma_external_callers_are_unchanged(path, files, changed);
    lemma_external_sites_are_bounded(path, files, changed);
    if let Ok(sites) = external_sites(path, files, changed) {
        lemma_affected_by_all_has_unchanged_callers(
            path,
            files,
            known,
            source_calls(source, ranges),
            changed,
            sites,
        );
    }
}

proof fn lemma_affected_by_all_has_unchanged_callers(
    path: Seq<u8>,
    files: Seq<IndexedFileView>,
    definitions: Seq<definitions::DefinitionView>,
    edges: Seq<CallEdge>,
    changed: Seq<definitions::DefinitionView>,
    sites: Seq<Seq<CallSiteView>>,
)
    requires
        are_unchanged_sites(path, files, sites),
        changed.len() <= sites.len(),
    ensures
        have_unchanged_callers(path, files, affected_by_all(definitions, edges, changed, sites)),
    decreases changed.len(),
{
    if changed.len() > 0 {
        let rest = changed.drop_last();
        lemma_affected_by_all_has_unchanged_callers(path, files, definitions, edges, rest, sites);
        let before = affected_by_all(definitions, edges, rest, sites);
        let after = affected_by_all(definitions, edges, changed, sites);
        let last = changed.len() - 1;
        assert forall|i: int, j: int|
            0 <= i < after.len() && 0 <= j < after[i].external_callers.len() implies is_unchanged_in(
            path,
            files,
            #[trigger] after[i].external_callers[j],
        ) by {
            if i < before.len() {
                assert(after[i] == before[i]);
                assert(is_unchanged_in(path, files, before[i].external_callers[j]));
            } else {
                assert(after[i].external_callers == sites[last]);
                assert(is_unchanged_in(path, files, sites[last][j]));
            }
        }
    }
}

/// Whether a match of the call query names a callable: a free function by its name, an associated
/// function by its implementation type and its name.
pub open spec fn names_callable(
    source: Seq<u8>,
    captures: Seq<tree::CaptureView>,
    definition: definitions::DefinitionView,
) -> bool {
    match definition.impl_type {
        Some(owner) => definitions::captures_text(source, captures, "type"@, owner)
            && definitions::captures_text(source, captures, "method"@, definition.name),
        None => definitions::captures_text(source, captures, "function"@, definition.name),
    }
}

proof fn lemma_named_text(source: Seq<u8>, captures: Seq<tree::CaptureView>, name: Seq<char>)
    ensures
        named_text(source, captures, name) matches Some(captured) ==> definitions::captures_text(
            source,
            captures,
            name,
            captured,
        ),
        definitions::have_own_names(captures) ==> forall|captured: Seq<char>|
            #[trigger] definitions::captures_text(source, captures, name, captured) ==> named_text(
                source,
                captures,
                name,
            ) == Some(captured),
{
    definitions::lemma_capture_named(captures, name);
    if let Some(capture) = definitions::capture_named(captures, name) {
        let at = choose|i: int|
            0 <= i < captures.len() && #[trigger] captures[i] == capture && capture.name == name;
        if let Some(captured) = named_text(source, captures, name) {
            assert(captures[at].name == name);
            assert(definitions::is_source_text(
                source,
                captures[at].start_byte as int,
                captures[at].end_byte as int,
                captured,
            ));
        }
        if definitions::have_own_names(captures) {
            assert forall|captured: Seq<char>| #[trigger]
                definitions::captures_text(source, captures, name, captured) implies named_text(
                source,
                captures,
                name,
            ) == Some(captured) by {
                let i = choose|i: int|
                    0 <= i < captures.len() && (#[trigger] captures[i]).name == name
                        && definitions::is_source_text(
                        source,
                        captures[i].start_byte as int,
                        captures[i].end_byte as int,
                        captured,
                    );
                assert(captures[i].name == captures[at].name);
                assert(i == at);
            }
        }
    }
}

/// A call is attributed to a callable only where the source text of its captures names it, and
/// always where it does and no two captures have the same name.
pub proof fn lemma_calls_are_attributed_by_their_text(
    source: Seq<u8>,
    captures: Seq<tree::CaptureView>,
    definition: definitions::DefinitionView,
)
    ensures
        calls_definition(source, captures, definition) ==> names_callable(
            source,
            captures,
            definition,
        ),
        definitions::have_own_names(captures) ==> (calls_definition(source, captures, definition)
            <==> names_callable(source, captures, definition)),
{
    lemma_named_text(source, captures, "type"@);
    lemma_named_text(source, captures, "method"@);
    lemma_named_text(source, captures, "function"@);
}

proof fn lemma_called_index_calls(
    source: Seq<u8>,
    captures: Seq<tree::CaptureView>,
    changed: Seq<definitions::DefinitionView>,
)
    ensures
        ({
            let at = called_index(source, captures, changed);
            &&& 0 <= at <= changed.len()
            &&& at < changed.len() ==> calls_definition(source, captures, changed[at])
            &&& forall|i: int|
                0 <= i < at ==> !calls_definition(source, captures, #[trigger] changed[i])
        }),
    decreases changed.len(),
{
    if changed.len() > 0 && !calls_definition(source, captures, changed[0]) {
        let rest = changed.skip(1);
        lemma_called_index_calls(source, captures, rest);
        let at = called_index(source, captures, changed);
        assert forall|i: int| 0 <= i < at implies !calls_definition(
            source,
            captures,
            #[trigger] changed[i],
        ) by {
            if i > 0 {
                assert(changed[i] == rest[i - 1]);
            }
        }
    }
}

/// Whether a call site is what the match with the given number in a Rust file is: a call outside
/// of tests that names the callable, shown by its line and by the callable around it.
pub open spec fn is_call_in(
    file: IndexedFileView,
    number: int,
    definition: definitions::DefinitionView,
    site: CallSiteView,
) -> bool {
    let nodes = tree::rust_nodes(file.source);
    &&& language::detected(file.path, file.source) == Some(Language::Rust)
    &&& tree::rust_matches(file.source, tree::query_text(RustQuery::Calls)) matches Some(matches)
    &&& 0 <= number < matches.len()
    &&& names_callable(file.source, matches[number], definition)
    &&& matched_node(file, matches[number]) matches Some(call)
    &&& !source::in_test(nodes, file.source, call)
    &&& site.path == file.path
    &&& source::row_text(file.source, nodes[call].start_row as int) == Some(site.call)
    &&& calls::enclosing(nodes, source_definitions(file.source), call) matches Some(caller)
    &&& caller.label == site.caller
}

/// Whether a call site is a call of a callable in one of the files other than the changed one.
pub open spec fn is_call_in_some(
    changed_path: Seq<u8>,
    files: Seq<IndexedFileView>,
    definition: definitions::DefinitionView,
    site: CallSiteView,
) -> bool {
    exists|f: int, number: int|
        0 <= f < files.len() && !path::same(files[f].path, changed_path) && #[trigger] is_call_in(
            files[f],
            number,
            definition,
            site,
        )
}

/// Whether the call sites of each callable are calls of it in files other than the changed one.
pub open spec fn are_calls(
    changed_path: Seq<u8>,
    files: Seq<IndexedFileView>,
    changed: Seq<definitions::DefinitionView>,
    sites: Seq<Seq<CallSiteView>>,
) -> bool {
    &&& sites.len() == changed.len()
    &&& forall|i: int, j: int|
        0 <= i < sites.len() && 0 <= j < sites[i].len() ==> is_call_in_some(
            changed_path,
            files,
            changed[i],
            #[trigger] sites[i][j],
        )
}

proof fn lemma_with_sites_are_calls(
    changed_path: Seq<u8>,
    files: Seq<IndexedFileView>,
    count: int,
    changed: Seq<definitions::DefinitionView>,
    sites: Seq<Seq<CallSiteView>>,
)
    requires
        files.len() > 0,
        !path::same(files.last().path, changed_path),
        language::detected(files.last().path, files.last().source) == Some(Language::Rust),
        tree::rust_matches(files.last().source, tree::query_text(RustQuery::Calls)) is Some,
        0 <= count <= tree::rust_matches(
            files.last().source,
            tree::query_text(RustQuery::Calls),
        )->0.len(),
        are_calls(changed_path, files, changed, sites),
    ensures
        are_calls(
            changed_path,
            files,
            changed,
            with_sites(
                files.last(),
                tree::rust_matches(
                    files.last().source,
                    tree::query_text(RustQuery::Calls),
                )->0.take(count),
                changed,
                sites,
            ),
        ),
    decreases count,
{
    if count > 0 {
        let file = files.last();
        let all = tree::rust_matches(file.source, tree::query_text(RustQuery::Calls))->0;
        let matches = all.take(count);
        assert(matches.drop_last() =~= all.take(count - 1));
        lemma_with_sites_are_calls(changed_path, files, count - 1, changed, sites);
        lemma_called_index_calls(file.source, matches.last(), changed);
        let at = called_index(file.source, matches.last(), changed);
        let before = with_sites(file, matches.drop_last(), changed, sites);
        let after = with_sites(file, matches, changed, sites);
        assert forall|i: int, j: int|
            0 <= i < after.len() && 0 <= j < after[i].len() implies is_call_in_some(
            changed_path,
            files,
            changed[i],
            #[trigger] after[i][j],
        ) by {
            if j < before[i].len() {
                assert(after[i][j] == before[i][j]);
            } else {
                assert(i == at);
                lemma_calls_are_attributed_by_their_text(file.source, all[count - 1], changed[at]);
                assert(is_call_in(files[files.len() - 1], count - 1, changed[i], after[i][j]));
            }
        }
    }
}

/// Every call site reported for an associated function is a call whose captured type is its
/// implementation type and whose captured method is its name; every one reported for a free function
/// is a call whose captured function is its name. All stand outside of tests in other Rust files.
pub proof fn lemma_external_callers_call_what_they_are_reported_for(
    changed_path: Seq<u8>,
    files: Seq<IndexedFileView>,
    changed: Seq<definitions::DefinitionView>,
)
    ensures
        external_sites(changed_path, files, changed) matches Ok(sites) ==> are_calls(
            changed_path,
            files,
            changed,
            sites,
        ),
    decreases files.len(),
{
    if files.len() > 0 {
        let rest = files.drop_last();
        lemma_external_callers_call_what_they_are_reported_for(changed_path, rest, changed);
        if let Ok(sites) = external_sites(changed_path, rest, changed) {
            assert forall|i: int, j: int|
                0 <= i < sites.len() && 0 <= j < sites[i].len() implies is_call_in_some(
                changed_path,
                files,
                changed[i],
                #[trigger] sites[i][j],
            ) by {
                assert(is_call_in_some(changed_path, rest, changed[i], sites[i][j]));
                let (f, number) = choose|f: int, number: int|
                    0 <= f < rest.len() && !path::same(rest[f].path, changed_path) && #[trigger]
                        is_call_in(rest[f], number, changed[i], sites[i][j]);
                assert(is_call_in(files[f], number, changed[i], sites[i][j]));
            }
            if !path::same(files.last().path, changed_path) && language::detected(
                files.last().path,
                files.last().source,
            ) == Some(Language::Rust) {
                if let Some(matches) = tree::rust_matches(
                    files.last().source,
                    tree::query_text(RustQuery::Calls),
                ) {
                    assert(matches.take(matches.len() as int) =~= matches);
                    lemma_with_sites_are_calls(
                        changed_path,
                        files,
                        matches.len() as int,
                        changed,
                        sites,
                    );
                }
            }
        }
    }
}

/// Whether the call sites of each callable are followed only by further ones.
pub open spec fn grow(before: Seq<Seq<CallSiteView>>, after: Seq<Seq<CallSiteView>>) -> bool {
    &&& before.len() == after.len()
    &&& forall|i: int, site: CallSiteView|
        0 <= i < before.len() && #[trigger] before[i].contains(site) ==> after[i].contains(site)
    &&& forall|i: int|
        0 <= i < before.len() ==> (#[trigger] before[i]).len() <= after[i].len()
}

proof fn lemma_with_site_grows(
    file: IndexedFileView,
    captures: Seq<tree::CaptureView>,
    changed: Seq<definitions::DefinitionView>,
    sites: Seq<Seq<CallSiteView>>,
)
    requires
        sites.len() == changed.len(),
    ensures
        grow(sites, with_site(file, captures, changed, sites)),
        ({
            let at = called_index(file.source, captures, changed);
            let after = with_site(file, captures, changed, sites);
            at < changed.len() ==> (matched_site(file, captures) matches Some(site)
                ==> after[at].contains(site) || after[at].len() >= 3)
        }),
{
    lemma_called_index(file.source, captures, changed);
    let at = called_index(file.source, captures, changed);
    let after = with_site(file, captures, changed, sites);
    if let Some(site) = matched_site(file, captures) {
        if at < changed.len() && sites[at].len() < MAX_EXTERNAL_CALLERS_PER_CALLABLE {
            assert(after[at][sites[at].len() as int] == site);
            assert forall|i: int, other: CallSiteView|
                0 <= i < sites.len() && #[trigger] sites[i].contains(
                    other,
                ) implies after[i].contains(other) by {
                let j = choose|j: int| 0 <= j < sites[i].len() && sites[i][j] == other;
                assert(after[i][j] == other);
            }
        }
    }
}

proof fn lemma_with_sites_grow(
    file: IndexedFileView,
    matches: Seq<Seq<tree::CaptureView>>,
    changed: Seq<definitions::DefinitionView>,
    sites: Seq<Seq<CallSiteView>>,
)
    requires
        sites.len() == changed.len(),
    ensures
        grow(sites, with_sites(file, matches, changed, sites)),
    decreases matches.len(),
{
    if matches.len() > 0 {
        let before = with_sites(file, matches.drop_last(), changed, sites);
        lemma_with_sites_grow(file, matches.drop_last(), changed, sites);
        lemma_with_site_grows(file, matches.last(), changed, before);
        lemma_growth_adds_up(sites, before, with_sites(file, matches, changed, sites));
    }
}

proof fn lemma_growth_adds_up(
    first: Seq<Seq<CallSiteView>>,
    second: Seq<Seq<CallSiteView>>,
    third: Seq<Seq<CallSiteView>>,
)
    requires
        grow(first, second),
        grow(second, third),
    ensures
        grow(first, third),
{
    assert forall|i: int, site: CallSiteView|
        0 <= i < first.len() && #[trigger] first[i].contains(site) implies third[i].contains(
        site,
    ) by {
        assert(second[i].contains(site));
    }
    assert forall|i: int| 0 <= i < first.len() implies (#[trigger] first[i]).len()
        <= third[i].len() by {
        assert(second[i].len() <= third[i].len());
    }
}

proof fn lemma_with_sites_hold_matches(
    file: IndexedFileView,
    matches: Seq<Seq<tree::CaptureView>>,
    changed: Seq<definitions::DefinitionView>,
    sites: Seq<Seq<CallSiteView>>,
    number: int,
)
    requires
        sites.len() == changed.len(),
        0 <= number < matches.len(),
    ensures
        ({
            let at = called_index(file.source, matches[number], changed);
            let after = with_sites(file, matches, changed, sites);
            at < changed.len() ==> (matched_site(file, matches[number]) matches Some(site)
                ==> after[at].contains(site) || after[at].len() >= 3)
        }),
    decreases matches.len(),
{
    let rest = matches.drop_last();
    let before = with_sites(file, rest, changed, sites);
    lemma_with_sites_grow(file, rest, changed, sites);
    lemma_with_site_grows(file, matches.last(), changed, before);
    lemma_called_index(file.source, matches[number], changed);
    if number < matches.len() - 1 {
        assert(rest[number] == matches[number]);
        lemma_with_sites_hold_matches(file, rest, changed, sites, number);
        let at = called_index(file.source, matches[number], changed);
        if at < changed.len() {
            let after = with_sites(file, matches, changed, sites);
            assert(before[at].len() <= after[at].len());
        }
    }
}

proof fn lemma_later_files_add_callers(
    changed_path: Seq<u8>,
    files: Seq<IndexedFileView>,
    changed: Seq<definitions::DefinitionView>,
)
    requires
        files.len() > 0,
        external_sites(changed_path, files, changed) is Ok,
    ensures
        external_sites(changed_path, files.drop_last(), changed) matches Ok(before) && grow(
            before,
            external_sites(changed_path, files, changed)->Ok_0,
        ) && before.len() == changed.len(),
{
    lemma_external_sites_are_bounded(changed_path, files.drop_last(), changed);
    if let Ok(before) = external_sites(changed_path, files.drop_last(), changed) {
        if let Some(matches) = tree::rust_matches(
            files.last().source,
            tree::query_text(RustQuery::Calls),
        ) {
            lemma_with_sites_grow(files.last(), matches, changed, before);
        }
    }
}

/// A call in another Rust file that names a changed callable, and none before it, is reported for
/// that callable wherever it is a call site at all, unless three others are.
pub proof fn lemma_external_callers_are_left_out_only_beyond_three(
    changed_path: Seq<u8>,
    files: Seq<IndexedFileView>,
    changed: Seq<definitions::DefinitionView>,
    f: int,
    number: int,
    at: int,
)
    requires
        0 <= f < files.len(),
        !path::same(files[f].path, changed_path),
        language::detected(files[f].path, files[f].source) == Some(Language::Rust),
        tree::rust_matches(files[f].source, tree::query_text(RustQuery::Calls)) is Some,
        ({
            let matches = tree::rust_matches(
                files[f].source,
                tree::query_text(RustQuery::Calls),
            )->0;
            &&& 0 <= number < matches.len()
            &&& definitions::have_own_names(matches[number])
            &&& 0 <= at < changed.len()
            &&& names_callable(files[f].source, matches[number], changed[at])
            &&& forall|i: int|
                0 <= i < at ==> !names_callable(
                    files[f].source,
                    matches[number],
                    #[trigger] changed[i],
                )
        }),
        external_sites(changed_path, files, changed) is Ok,
    ensures
        ({
            let matches = tree::rust_matches(
                files[f].source,
                tree::query_text(RustQuery::Calls),
            )->0;
            let sites = external_sites(changed_path, files, changed)->Ok_0;
            matched_site(files[f], matches[number]) matches Some(site) ==> sites[at].contains(site)
                || sites[at].len() >= 3
        }),
    decreases files.len(),
{
    let matches = tree::rust_matches(files[f].source, tree::query_text(RustQuery::Calls))->0;
    let rest = files.drop_last();
    lemma_later_files_add_callers(changed_path, files, changed);
    let before = external_sites(changed_path, rest, changed)->Ok_0;
    let after = external_sites(changed_path, files, changed)->Ok_0;
    if f == files.len() - 1 {
        lemma_called_index_calls(files[f].source, matches[number], changed);
        let found = called_index(files[f].source, matches[number], changed);
        lemma_calls_are_attributed_by_their_text(files[f].source, matches[number], changed[at]);
        if found < at {
            lemma_calls_are_attributed_by_their_text(
                files[f].source,
                matches[number],
                changed[found],
            );
        }
        assert(found == at);
        lemma_with_sites_hold_matches(files[f], matches, changed, before, number);
    } else {
        assert(rest[f] == files[f]);
        lemma_external_callers_are_left_out_only_beyond_three(
            changed_path,
            rest,
            changed,
            f,
            number,
            at,
        );
        assert(before[at].len() <= after[at].len());
    }
}

/// The changed ranges of a side are those that the hunks have on that side, and no others.
pub proof fn lemma_sides_have_their_own_ranges(hunks: Seq<DiffHunk>, range: LineRange)
    ensures
        side_ranges(hunks, true).contains(range) <==> exists|i: int|
            0 <= i < hunks.len() && (#[trigger] hunks[i]).after == Some(range),
        side_ranges(hunks, false).contains(range) <==> exists|i: int|
            0 <= i < hunks.len() && (#[trigger] hunks[i]).before == Some(range),
{
    lemma_side_ranges(hunks, true, range);
    lemma_side_ranges(hunks, false, range);
}

proof fn lemma_side_ranges(hunks: Seq<DiffHunk>, after: bool, range: LineRange)
    ensures
        side_ranges(hunks, after).contains(range) <==> exists|i: int|
            0 <= i < hunks.len() && (if after {
                (#[trigger] hunks[i]).after
            } else {
                hunks[i].before
            }) == Some(range),
    decreases hunks.len(),
{
    if hunks.len() > 0 {
        let rest = hunks.drop_last();
        lemma_side_ranges(rest, after, range);
        let before = side_ranges(rest, after);
        let all = side_ranges(hunks, after);
        let last = if after {
            hunks.last().after
        } else {
            hunks.last().before
        };
        if all.contains(range) {
            let at = choose|at: int| 0 <= at < all.len() && all[at] == range;
            if at < before.len() {
                assert(before[at] == range);
                let i = choose|i: int|
                    0 <= i < rest.len() && (if after {
                        (#[trigger] rest[i]).after
                    } else {
                        rest[i].before
                    }) == Some(range);
                assert(hunks[i] == rest[i]);
            } else {
                assert(hunks[hunks.len() - 1] == hunks.last());
            }
        }
        if exists|i: int|
            0 <= i < hunks.len() && (if after {
                (#[trigger] hunks[i]).after
            } else {
                hunks[i].before
            }) == Some(range) {
            let i = choose|i: int|
                0 <= i < hunks.len() && (if after {
                    (#[trigger] hunks[i]).after
                } else {
                    hunks[i].before
                }) == Some(range);
            if i < rest.len() {
                assert(rest[i] == hunks[i]);
                let at = choose|at: int| 0 <= at < before.len() && before[at] == range;
                assert(all[at] == range);
            } else {
                assert(last == Some(range));
                assert(all[before.len() as int] == range);
            }
        }
    }
}

/// A side is examined exactly where it is an ordinary file with changed lines whose contents could
/// be read.
pub proof fn lemma_ordinary_files_with_changes_are_examined(
    version: Option<FileVersion>,
    hunks: Seq<DiffHunk>,
    after: bool,
    blob: Option<Seq<u8>>,
)
    ensures
        side_source(version, hunks, after, blob) is Some <==> (version matches Some(file) && (
        file.mode == change::FileMode::Blob || file.mode == change::FileMode::BlobExecutable || file.mode
            == change::FileMode::BlobGroupWritable) && blob is Some && exists|i: int|
            0 <= i < hunks.len() && (if after {
                (#[trigger] hunks[i]).after
            } else {
                hunks[i].before
            }) is Some),
        side_source(version, hunks, after, blob) matches Some((path, source, ranges)) ==> path
            == version->0.path@ && Some(source) == blob && ranges == side_ranges(hunks, after),
{
    let ranges = side_ranges(hunks, after);
    if ranges.len() > 0 {
        lemma_side_ranges(hunks, after, ranges[0]);
        assert(ranges.contains(ranges[0]));
    }
    if exists|i: int|
        0 <= i < hunks.len() && (if after {
            (#[trigger] hunks[i]).after
        } else {
            hunks[i].before
        }) is Some {
        let i = choose|i: int|
            0 <= i < hunks.len() && (if after {
                (#[trigger] hunks[i]).after
            } else {
                hunks[i].before
            }) is Some;
        let range = (if after {
            hunks[i].after
        } else {
            hunks[i].before
        })->0;
        lemma_side_ranges(hunks, after, range);
        assert(ranges.contains(range));
    }
}

/// A match of the call query is a call site exactly where its call stands on an unchanged line
/// outside of tests, within a callable none of whose lines is changed.
pub proof fn lemma_unchanged_production_calls_are_sites(
    file: IndexedFileView,
    captures: Seq<tree::CaptureView>,
    call: int,
)
    requires
        matched_node(file, captures) == Some(call),
    ensures
        ({
            let nodes = tree::rust_nodes(file.source);
            let row = nodes[call].start_row as int;
            let around = calls::enclosing(nodes, source_definitions(file.source), call);
            matched_site(file, captures) is Some <==> !hunk::row_in(row, file.changed)
                && !source::in_test(nodes, file.source, call) && (around matches Some(caller)
                && !definitions::is_changed(caller, file.changed)) && source::row_text(
                file.source,
                row,
            ) is Some
        }),
{
}

proof fn lemma_affected_by_all_holds(
    definitions: Seq<definitions::DefinitionView>,
    edges: Seq<CallEdge>,
    changed: Seq<definitions::DefinitionView>,
    sites: Seq<Seq<CallSiteView>>,
    i: int,
)
    requires
        0 <= i < changed.len() <= sites.len(),
    ensures
        affected_by(definitions, edges, changed[i], sites[i]) matches Some(code)
            ==> affected_by_all(definitions, edges, changed, sites).contains(code),
    decreases changed.len(),
{
    let rest = changed.drop_last();
    let before = affected_by_all(definitions, edges, rest, sites);
    let all = affected_by_all(definitions, edges, changed, sites);
    if let Some(code) = affected_by(definitions, edges, changed[i], sites[i]) {
        if i == changed.len() - 1 {
            assert(all[before.len() as int] == code);
        } else {
            assert(rest[i] == changed[i]);
            lemma_affected_by_all_holds(definitions, edges, rest, sites, i);
            let at = choose|at: int| 0 <= at < before.len() && before[at] == code;
            assert(all[at] == code);
        }
    }
}

/// Every changed callable of a source that is public, or that an entry point or a caller in another
/// file reaches, is reported by its declaration, with its documentation where it is public.
pub proof fn lemma_changed_callables_that_matter_are_reported(
    path: Seq<u8>,
    source: Seq<u8>,
    ranges: Seq<LineRange>,
    files: Seq<IndexedFileView>,
    i: int,
)
    requires
        affected(path, source, ranges, files) is Ok,
        0 <= i < changed_callables(source_definitions(source), ranges).len(),
    ensures
        ({
            let known = source_definitions(source);
            let changed = changed_callables(known, ranges);
            let edges = source_calls(source, ranges);
            let entries = calls::reached_entry_points(known, edges, changed[i].span);
            let callers = external_sites(path, files, changed)->Ok_0[i];
            changed[i].public || entries.len() > 0 || callers.len() > 0 ==> exists|k: int|
                #![trigger affected(path, source, ranges, files)->Ok_0[k]]
                0 <= k < affected(path, source, ranges, files)->Ok_0.len() && ({
                    let code = affected(path, source, ranges, files)->Ok_0[k];
                    &&& code.changed == changed[i].declaration
                    &&& code.public == changed[i].public
                    &&& changed[i].public ==> code.documentation == changed[i].documentation
                    &&& !changed[i].public ==> code.documentation is None
                    &&& code.entry_points == entries
                    &&& code.external_callers == callers
                })
        }),
{
    let known = source_definitions(source);
    let changed = changed_callables(known, ranges);
    let edges = source_calls(source, ranges);
    let sites = external_sites(path, files, changed)->Ok_0;
    lemma_external_sites_are_bounded(path, files, changed);
    lemma_affected_by_all_holds(known, edges, changed, sites, i);
    if let Some(code) = affected_by(known, edges, changed[i], sites[i]) {
        let codes = affected(path, source, ranges, files)->Ok_0;
        let k = choose|k: int| 0 <= k < codes.len() && codes[k] == code;
        assert(codes[k] == code);
    }
}

/// The side after the commit is examined wherever it can be, and the one before it only where it
/// cannot.
pub proof fn lemma_the_side_after_the_commit_comes_first(
    change: CommitChange,
    after: Option<Seq<u8>>,
    before: Option<Seq<u8>>,
)
    ensures
        side_source(change::version_after(change.kind), change.hunks@, true, after) is Some
            ==> examined_side(change, after, before) == side_source(
            change::version_after(change.kind),
            change.hunks@,
            true,
            after,
        ),
        side_source(change::version_after(change.kind), change.hunks@, true, after) is None
            ==> examined_side(change, after, before) == side_source(
            change::version_before(change.kind),
            change.hunks@,
            false,
            before,
        ),
{
}

/// A change has context exactly where the examined side is Rust source and affects some code, and it
/// then is that of the examined file.
pub proof fn lemma_context_is_that_of_rust_source(
    change: CommitChange,
    after: Option<Seq<u8>>,
    before: Option<Seq<u8>>,
    files: Seq<IndexedFileView>,
)
    ensures
        change_context(change, after, before, files) matches Ok(Some(context)) ==> (examined_side(
            change,
            after,
            before,
        ) matches Some((path, source, ranges)) && language::detected(path, source) == Some(
            Language::Rust,
        ) && context.path == path && context.affected.len() > 0 && affected(
            path,
            source,
            ranges,
            files,
        ) == Ok::<_, SyntaxError>(context.affected)),
        (examined_side(change, after, before) matches Some((path, source, ranges))
            && language::detected(path, source) == Some(Language::Rust) && (affected(
            path,
            source,
            ranges,
            files,
        ) matches Ok(code) && code.len() > 0)) ==> (change_context(
            change,
            after,
            before,
            files,
        ) matches Ok(Some(_))),
{
}

} // verus!
