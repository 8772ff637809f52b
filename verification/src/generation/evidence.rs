//! The structural evidence that a changed Rust file gives to a prompt.

use vstd::prelude::*;

use crate::generation::context;
use crate::generation::context::{
    SyntaxCallSite, SyntaxContext, SyntaxEntry, SyntaxItem, SyntaxSide,
};
use crate::git::change;
use crate::git::change::{CommitChange, FileVersion};
use crate::git::hunk::{DiffHunk, LineRange};
use crate::syntax::context as affected;
use crate::syntax::context::{AffectedCode, IndexedFile, SyntaxError};
use crate::syntax::definitions;
use crate::syntax::definitions::Definition;
use crate::syntax::language;
use crate::syntax::language::Language;

verus! {

/// What a [`SyntaxSide`] holds.
pub ghost struct SideView {
    pub path: Seq<u8>,
    pub entries: Seq<Seq<context::ItemView>>,
    pub call_sites: Seq<context::CallView>,
}

/// What a [`SyntaxContext`] holds.
pub ghost struct EvidenceView {
    pub language: Language,
    pub before: Option<SideView>,
    pub after: Option<SideView>,
}

/// What a side holds.
pub open spec fn side_view(side: SyntaxSide) -> SideView {
    SideView {
        path: side.path@,
        entries: context::entry_views(side.entries@),
        call_sites: context::call_views(side.call_sites@),
    }
}

/// What an optional side holds.
pub open spec fn optional_side(side: Option<SyntaxSide>) -> Option<SideView> {
    match side {
        Some(side) => Some(side_view(side)),
        None => None,
    }
}

/// What a context holds.
pub open spec fn evidence_view(context: SyntaxContext) -> EvidenceView {
    EvidenceView {
        language: context.language,
        before: optional_side(context.before),
        after: optional_side(context.after),
    }
}

/// A definition as it is shown.
pub open spec fn shown_item(definition: definitions::DefinitionView) -> context::ItemView {
    context::ItemView {
        declaration: definition.declaration,
        start_line: if definition.start_row == usize::MAX {
            usize::MAX
        } else {
            (definition.start_row + 1) as usize
        },
    }
}

/// Whether one definition lies within another.
pub open spec fn encloses(
    outer: definitions::DefinitionView,
    inner: definitions::DefinitionView,
) -> bool {
    outer.span != inner.span && outer.span.start <= inner.span.start && inner.span.end
        <= outer.span.end
}

/// The definitions around one, in the order of their first bytes.
pub open spec fn around(
    definitions: Seq<definitions::DefinitionView>,
    inner: definitions::DefinitionView,
) -> Seq<definitions::DefinitionView>
    decreases definitions.len(),
{
    if definitions.len() == 0 {
        seq![]
    } else {
        let before = around(definitions.drop_last(), inner);
        let definition = definitions.last();
        if encloses(definition, inner) {
            before.insert(affected::insertion_point(before, definition.span.start), definition)
        } else {
            before
        }
    }
}

/// A definition below those around it.
pub open spec fn entry_of(
    definitions: Seq<definitions::DefinitionView>,
    definition: definitions::DefinitionView,
) -> Seq<context::ItemView> {
    around(definitions, definition).push(definition).map_values(
        |shown: definitions::DefinitionView| shown_item(shown),
    )
}

/// The entries of the callables that overlap a changed line.
pub open spec fn changed_entries(source: Seq<u8>, ranges: Seq<LineRange>) -> Seq<
    Seq<context::ItemView>,
> {
    let known = affected::source_definitions(source);
    affected::changed_callables(known, ranges).map_values(
        |definition: definitions::DefinitionView| entry_of(known, definition),
    )
}

/// A call in another file, as it is shown.
pub open spec fn shown_call(site: affected::CallSiteView) -> context::CallView {
    context::CallView {
        caller: seq![context::ItemView { declaration: site.caller, start_line: 0 }],
        call: site.call,
    }
}

/// The calls in other files, as they are shown.
pub open spec fn shown_calls(code: Seq<affected::AffectedView>) -> Seq<context::CallView>
    decreases code.len(),
{
    if code.len() == 0 {
        seq![]
    } else {
        shown_calls(code.drop_last()) + code.last().external_callers.map_values(
            |site: affected::CallSiteView| shown_call(site),
        )
    }
}

/// The source of one side, where it is Rust.
pub open spec fn rust_side(
    version: Option<FileVersion>,
    hunks: Seq<DiffHunk>,
    after: bool,
    blob: Option<Seq<u8>>,
) -> Option<(Seq<u8>, Seq<u8>, Seq<LineRange>)> {
    match affected::side_source(version, hunks, after, blob) {
        Some((path, source, ranges)) => if language::detected(path, source) == Some(
            Language::Rust,
        ) {
            Some((path, source, ranges))
        } else {
            None
        },
        None => None,
    }
}

/// What the side before a change gives: its changed declarations.
pub open spec fn evidence_before(side: Option<(Seq<u8>, Seq<u8>, Seq<LineRange>)>) -> Result<
    Option<SideView>,
    SyntaxError,
> {
    match side {
        None => Ok(None),
        Some((path, source, ranges)) => match affected::definitions_error(source) {
            Some(error) => Err(error),
            None => Ok(
                Some(
                    SideView { path, entries: changed_entries(source, ranges), call_sites: seq![] },
                ),
            ),
        },
    }
}

/// What the side after a change gives: its changed declarations, and their callers in other files.
pub open spec fn evidence_after(
    side: Option<(Seq<u8>, Seq<u8>, Seq<LineRange>)>,
    files: Seq<affected::IndexedFileView>,
) -> Result<Option<SideView>, SyntaxError> {
    match side {
        None => Ok(None),
        Some((path, source, ranges)) => match affected::affected(path, source, ranges, files) {
            Err(error) => Err(error),
            Ok(code) => Ok(
                Some(
                    SideView {
                        path,
                        entries: changed_entries(source, ranges),
                        call_sites: shown_calls(code),
                    },
                ),
            ),
        },
    }
}

/// Whether a side shows anything.
pub open spec fn shows_anything(side: Option<SideView>) -> bool {
    match side {
        Some(side) => side.entries.len() > 0 || side.call_sites.len() > 0,
        None => false,
    }
}

/// The evidence that a change gives, where it gives any.
pub open spec fn change_evidence(
    change: CommitChange,
    after: Option<Seq<u8>>,
    before: Option<Seq<u8>>,
    files: Seq<affected::IndexedFileView>,
) -> Result<Option<EvidenceView>, SyntaxError> {
    match evidence_after(
        rust_side(change::version_after(change.kind), change.hunks@, true, after),
        files,
    ) {
        Err(error) => Err(error),
        Ok(after_side) => match evidence_before(
            rust_side(change::version_before(change.kind), change.hunks@, false, before),
        ) {
            Err(error) => Err(error),
            Ok(before_side) => if shows_anything(before_side) || shows_anything(after_side) {
                Ok(
                    Some(
                        EvidenceView {
                            language: Language::Rust,
                            before: before_side,
                            after: after_side,
                        },
                    ),
                )
            } else {
                Ok(None)
            },
        },
    }
}

/// A definition as it is shown.
fn item_of(definition: &Definition) -> (item: SyntaxItem)
    ensures
        item@ == shown_item(definition@),
{
    SyntaxItem {
        declaration: definition.declaration.clone(),
        start_line: definition.start_row.saturating_add(1),
    }
}

/// A definition below those around it.
fn find_entry(definitions: &[Definition], index: usize) -> (entry: SyntaxEntry)
    requires
        index < definitions@.len(),
    ensures
        entry@ == entry_of(
            definitions::definition_views(definitions@),
            definitions@[index as int]@,
        ),
{
    let ghost views = definitions::definition_views(definitions@);
    let inner = &definitions[index];
    let mut outer: Vec<usize> = Vec::new();
    assert(affected::selected(definitions@, outer@) =~= around(views.take(0), inner@));
    for i in 0..definitions.len()
        invariant
            views == definitions::definition_views(definitions@),
            affected::are_indexes(outer@, definitions@.len()),
            affected::selected(definitions@, outer@) == around(views.take(i as int), inner@),
    {
        let definition = &definitions[i];
        let ghost before = affected::selected(definitions@, outer@);
        assert(views.take(i + 1).drop_last() =~= views.take(i as int));
        assert(views.take(i + 1).last() == definition@);
        if definition.span != inner.span && definition.span.start <= inner.span.start
            && inner.span.end <= definition.span.end {
            affected::insert_by_start(definitions, &mut outer, i);
            assert(affected::selected(definitions@, outer@) =~= before.insert(
                affected::insertion_point(before, definition.span.start),
                definition@,
            ));
        }
    }
    assert(views.take(definitions@.len() as int) =~= views);
    let ghost chain = around(views, inner@);
    let mut items: Vec<SyntaxItem> = Vec::new();
    for i in 0..outer.len()
        invariant
            affected::are_indexes(outer@, definitions@.len()),
            chain == affected::selected(definitions@, outer@),
            items@.len() == i,
            forall|j: int| 0 <= j < i ==> (#[trigger] items@[j])@ == shown_item(chain[j]),
    {
        assert(outer@[i as int] < definitions@.len());
        items.push(item_of(&definitions[outer[i]]));
    }
    items.push(item_of(inner));
    let entry = SyntaxEntry { items };
    assert(entry@ =~= entry_of(views, inner@));
    entry
}

/// The entries of the callables that overlap a changed line.
fn find_entries(source: &[u8], ranges: &[LineRange]) -> (result: Result<
    Vec<SyntaxEntry>,
    SyntaxError,
>)
    ensures
        match result {
            Ok(entries) => affected::definitions_error(source@) is None && context::entry_views(
                entries@,
            ) == changed_entries(source@, ranges@),
            Err(error) => affected::definitions_error(source@) == Some(error),
        },
{
    let definitions = match affected::find_definitions(source) {
        Ok(definitions) => definitions,
        Err(error) => return Err(error),
    };
    let ghost known = affected::source_definitions(source@);
    let changed = affected::find_changed(&definitions, ranges);
    let ghost targets = affected::changed_callables(known, ranges@);
    let mut entries: Vec<SyntaxEntry> = Vec::new();
    for i in 0..changed.len()
        invariant
            known == definitions::definition_views(definitions@),
            affected::are_indexes(changed@, definitions@.len()),
            targets == affected::selected(definitions@, changed@),
            entries@.len() == i,
            forall|j: int| 0 <= j < i ==> (#[trigger] entries@[j])@ == entry_of(known, targets[j]),
    {
        assert(changed@[i as int] < definitions@.len());
        entries.push(find_entry(&definitions, changed[i]));
    }
    assert(context::entry_views(entries@) =~= changed_entries(source@, ranges@));
    Ok(entries)
}

/// The calls in other files, as they are shown.
fn find_calls(code: &[AffectedCode]) -> (calls: Vec<SyntaxCallSite>)
    ensures
        context::call_views(calls@) == shown_calls(affected::affected_views(code@)),
{
    let ghost views = affected::affected_views(code@);
    let mut calls: Vec<SyntaxCallSite> = Vec::new();
    assert(context::call_views(calls@) =~= shown_calls(views.take(0)));
    for i in 0..code.len()
        invariant
            views == affected::affected_views(code@),
            context::call_views(calls@) == shown_calls(views.take(i as int)),
    {
        assert(views.take(i + 1).drop_last() =~= views.take(i as int));
        assert(views.take(i + 1).last() == code@[i as int]@);
        let ghost start = context::call_views(calls@);
        let sites = &code[i].external_callers;
        let ghost shown = affected::site_views(sites@).map_values(
            |site: affected::CallSiteView| shown_call(site),
        );
        assert(context::call_views(calls@) =~= start + shown.take(0));
        for j in 0..sites.len()
            invariant
                shown == affected::site_views(sites@).map_values(
                    |site: affected::CallSiteView| shown_call(site),
                ),
                context::call_views(calls@) == start + shown.take(j as int),
        {
            let items: Vec<SyntaxItem> = vec![
                SyntaxItem { declaration: sites[j].caller.clone(), start_line: 0 },
            ];
            let caller = SyntaxEntry { items };
            let call = SyntaxCallSite { caller, call: sites[j].call.clone() };
            assert(caller@ =~= shown[j as int].caller);
            let ghost before = context::call_views(calls@);
            calls.push(call);
            assert(context::call_views(calls@) =~= before.push(call@));
            assert(start + shown.take(j + 1) =~= (start + shown.take(j as int)).push(
                shown[j as int],
            ));
        }
        assert(shown.take(sites@.len() as int) =~= shown);
    }
    assert(views.take(code@.len() as int) =~= views);
    calls
}

/// The changed ranges of one side, where its blob is Rust source.
fn find_rust_ranges(
    version: Option<&FileVersion>,
    hunks: &[DiffHunk],
    after: bool,
    blob: &[u8],
) -> (result: Option<Vec<LineRange>>)
    ensures
        match version {
            Some(version) => match result {
                Some(ranges) => rust_side(Some(*version), hunks@, after, Some(blob@)) == Some(
                    (version.path@, blob@, ranges@),
                ),
                None => rust_side(Some(*version), hunks@, after, Some(blob@)) is None,
            },
            None => result is None,
        },
{
    match version {
        Some(found) => match affected::load_side(Some(found), hunks, after) {
            Some(ranges) => {
                if affected::is_rust(&found.path, blob) {
                    Some(ranges)
                } else {
                    None
                }
            },
            None => None,
        },
        None => None,
    }
}

/// What a result holds.
pub open spec fn side_result(result: Result<Option<SyntaxSide>, SyntaxError>) -> Result<
    Option<SideView>,
    SyntaxError,
> {
    match result {
        Ok(side) => Ok(optional_side(side)),
        Err(error) => Err(error),
    }
}

/// What a result holds.
pub open spec fn evidence_result(result: Result<Option<SyntaxContext>, SyntaxError>) -> Result<
    Option<EvidenceView>,
    SyntaxError,
> {
    match result {
        Ok(Some(context)) => Ok(Some(evidence_view(context))),
        Ok(None) => Ok(None),
        Err(error) => Err(error),
    }
}

/// An optional version.
pub open spec fn version_of(version: Option<&FileVersion>) -> Option<FileVersion> {
    match version {
        Some(version) => Some(*version),
        None => None,
    }
}

/// What the side after a change gives.
fn side_after(
    version: Option<&FileVersion>,
    hunks: &[DiffHunk],
    blob: Option<&[u8]>,
    files: &[IndexedFile],
) -> (result: Result<Option<SyntaxSide>, SyntaxError>)
    ensures
        side_result(result) == evidence_after(
            rust_side(version_of(version), hunks@, true, affected::blob_bytes(blob)),
            affected::file_views(files@),
        ),
{
    match (version, blob) {
        (Some(found), Some(source)) => {
            match find_rust_ranges(version, hunks, true, source) {
                Some(ranges) => {
                    match affected::affected_code(&found.path, source, &ranges, files) {
                        Err(error) => Err(error),
                        Ok(code) => match find_entries(source, &ranges) {
                            Err(error) => Err(error),
                            Ok(entries) => Ok(
                                Some(
                                    SyntaxSide {
                                        path: found.path.copied(),
                                        entries,
                                        call_sites: find_calls(&code),
                                    },
                                ),
                            ),
                        },
                    }
                },
                None => Ok(None),
            }
        },
        _ => Ok(None),
    }
}

/// What the side before a change gives.
fn side_before(version: Option<&FileVersion>, hunks: &[DiffHunk], blob: Option<&[u8]>) -> (result:
    Result<Option<SyntaxSide>, SyntaxError>)
    ensures
        side_result(result) == evidence_before(
            rust_side(version_of(version), hunks@, false, affected::blob_bytes(blob)),
        ),
{
    match (version, blob) {
        (Some(found), Some(source)) => {
            match find_rust_ranges(version, hunks, false, source) {
                Some(ranges) => match find_entries(source, &ranges) {
                    Err(error) => Err(error),
                    Ok(entries) => {
                        let call_sites: Vec<SyntaxCallSite> = Vec::new();
                        assert(context::call_views(call_sites@) =~= seq![]);
                        Ok(Some(SyntaxSide { path: found.path.copied(), entries, call_sites }))
                    },
                },
                None => Ok(None),
            }
        },
        _ => Ok(None),
    }
}

/// Whether a side shows anything.
fn is_filled(side: &Option<SyntaxSide>) -> (result: bool)
    ensures
        result == shows_anything(optional_side(*side)),
{
    match side {
        Some(side) => side.entries.len() > 0 || side.call_sites.len() > 0,
        None => false,
    }
}

/// Find the declarations on each side of a change that its changed lines belong to, and the calls
/// of those after it.
///
/// `after` and `before` are the blobs of the sides, and `files` are the files of the working tree
/// with their contents in the index. This is what a prompt shows of a change.
pub fn evidence_for_change(
    change: &CommitChange,
    after: Option<&[u8]>,
    before: Option<&[u8]>,
    files: &[IndexedFile],
) -> (result: Result<Option<SyntaxContext>, SyntaxError>)
    ensures
        evidence_result(result) == change_evidence(
            *change,
            affected::blob_bytes(after),
            affected::blob_bytes(before),
            affected::file_views(files@),
        ),
{
    let after_side = match side_after(change.after(), &change.hunks, after, files) {
        Ok(side) => side,
        Err(error) => return Err(error),
    };
    let before_side = match side_before(change.before(), &change.hunks, before) {
        Ok(side) => side,
        Err(error) => return Err(error),
    };
    if is_filled(&before_side) || is_filled(&after_side) {
        Ok(Some(SyntaxContext { language: Language::Rust, before: before_side, after: after_side }))
    } else {
        Ok(None)
    }
}

/// A context always has a side.
pub proof fn lemma_evidence_has_a_side(
    change: CommitChange,
    after: Option<Seq<u8>>,
    before: Option<Seq<u8>>,
    files: Seq<affected::IndexedFileView>,
)
    ensures
        change_evidence(change, after, before, files) matches Ok(Some(evidence)) ==> (
        evidence.before is Some || evidence.after is Some) && evidence.language
            == Language::Rust,
{
}

/// The declarations around a definition are exactly the known ones whose source bytes hold all of
/// its bytes and more, the outermost first.
pub proof fn lemma_declarations_around_hold_the_definition(
    definitions: Seq<definitions::DefinitionView>,
    inner: definitions::DefinitionView,
)
    ensures
        affected::in_source_order(around(definitions, inner)),
        forall|outer: definitions::DefinitionView| #[trigger]
            around(definitions, inner).contains(outer) <==> (definitions.contains(outer)
                && outer.span.start <= inner.span.start && inner.span.end <= outer.span.end
                && outer.span != inner.span),
    decreases definitions.len(),
{
    if definitions.len() > 0 {
        let rest = definitions.drop_last();
        let last = definitions.last();
        lemma_declarations_around_hold_the_definition(rest, inner);
        let before = around(rest, inner);
        let after = around(definitions, inner);
        let at = affected::insertion_point(before, last.span.start);
        affected::lemma_insertion_point(before, last.span.start);
        assert(definitions[definitions.len() - 1] == last);
        assert forall|outer: definitions::DefinitionView|
            definitions.contains(outer) <==> (rest.contains(outer) || outer == last) by {
            if definitions.contains(outer) && outer != last {
                let i = choose|i: int| 0 <= i < definitions.len() && definitions[i] == outer;
                assert(rest[i] == outer);
            }
            if rest.contains(outer) {
                let i = choose|i: int| 0 <= i < rest.len() && rest[i] == outer;
                assert(definitions[i] == outer);
            }
        }
        if encloses(last, inner) {
            assert(after[at] == last);
            assert forall|outer: definitions::DefinitionView|
                after.contains(outer) <==> (before.contains(outer) || outer == last) by {
                if after.contains(outer) && outer != last {
                    let i = choose|i: int| 0 <= i < after.len() && after[i] == outer;
                    assert(before[if i < at { i } else { i - 1 }] == outer);
                }
                if before.contains(outer) {
                    let i = choose|i: int| 0 <= i < before.len() && before[i] == outer;
                    assert(after[if i < at { i } else { i + 1 }] == outer);
                }
            }
            assert forall|i: int, j: int| 0 <= i < j < after.len() implies (
            #[trigger] after[i]).span.start <= (#[trigger] after[j]).span.start by {
                let old_i = if i < at { i } else { i - 1 };
                let old_j = if j < at { j } else { j - 1 };
                if i == at {
                    assert(after[j] == before[old_j]);
                } else if j == at {
                    assert(after[i] == before[i]);
                    assert(before[i].span.start <= before[at - 1].span.start);
                } else {
                    assert(after[i] == before[old_i] && after[j] == before[old_j]);
                }
            }
        }
    }
}

/// Every changed callable has an entry: it ends with its declaration and 1-based line, and before
/// it stand the declarations around it.
pub proof fn lemma_every_changed_callable_has_an_entry(
    source: Seq<u8>,
    ranges: Seq<LineRange>,
    i: int,
)
    requires
        0 <= i < affected::changed_callables(affected::source_definitions(source), ranges).len(),
    ensures
        ({
            let known = affected::source_definitions(source);
            let changed = affected::changed_callables(known, ranges);
            let entry = changed_entries(source, ranges)[i];
            &&& changed_entries(source, ranges).len() == changed.len()
            &&& entry.len() == around(known, changed[i]).len() + 1
            &&& entry.last().declaration == changed[i].declaration
            &&& changed[i].start_row < usize::MAX ==> entry.last().start_line
                == changed[i].start_row + 1
            &&& forall|k: int|
                0 <= k < entry.len() - 1 ==> (#[trigger] entry[k]).declaration == around(
                    known,
                    changed[i],
                )[k].declaration
        }),
{
}

/// Every caller of every affected code is shown, by its label and its line.
pub proof fn lemma_every_caller_is_shown(code: Seq<affected::AffectedView>, i: int, j: int)
    requires
        0 <= i < code.len(),
        0 <= j < code[i].external_callers.len(),
    ensures
        exists|k: int|
            0 <= k < shown_calls(code).len() && (#[trigger] shown_calls(code)[k]).call
                == code[i].external_callers[j].call && shown_calls(code)[k].caller.len() == 1
                && shown_calls(code)[k].caller[0].declaration
                == code[i].external_callers[j].caller,
    decreases code.len(),
{
    let rest = code.drop_last();
    let before = shown_calls(rest);
    let all = shown_calls(code);
    if i == code.len() - 1 {
        assert(all[before.len() + j] == shown_call(code[i].external_callers[j]));
    } else {
        assert(rest[i] == code[i]);
        lemma_every_caller_is_shown(rest, i, j);
        let k = choose|k: int|
            0 <= k < before.len() && (#[trigger] before[k]).call
                == code[i].external_callers[j].call && before[k].caller.len() == 1
                && before[k].caller[0].declaration == code[i].external_callers[j].caller;
        assert(all[k] == before[k]);
    }
}

/// A change has evidence exactly where one of its sides shows something; each side shows what stands
/// in its own version of a Rust file, and callers only after the commit.
pub proof fn lemma_evidence_keeps_the_sides_apart(
    change: CommitChange,
    after: Option<Seq<u8>>,
    before: Option<Seq<u8>>,
    files: Seq<affected::IndexedFileView>,
)
    ensures
        change_evidence(change, after, before, files) matches Ok(Some(evidence)) ==> {
            &&& evidence.before matches Some(side) ==> side.call_sites.len() == 0 && (
            affected::side_source(
                change::version_before(change.kind),
                change.hunks@,
                false,
                before,
            ) matches Some((path, source, ranges)) && side.path == path && side.entries
                == changed_entries(source, ranges) && language::detected(path, source) == Some(
                Language::Rust,
            ))
            &&& evidence.after matches Some(side) ==> (affected::side_source(
                change::version_after(change.kind),
                change.hunks@,
                true,
                after,
            ) matches Some((path, source, ranges)) && side.path == path && side.entries
                == changed_entries(source, ranges) && language::detected(path, source) == Some(
                Language::Rust,
            ))
            &&& (evidence.before matches Some(side) && side.entries.len() > 0) || (
            evidence.after matches Some(side) && (side.entries.len() > 0 || side.call_sites.len()
                > 0))
        },
{
}

} // verus!
