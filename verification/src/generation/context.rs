//! The syntax context of changed files, as it is shown to the model.

use vstd::prelude::*;
use vstd::string::StringExecFns;

use crate::generation::tokens;
use crate::path;
use crate::path::RepoPath;
use crate::syntax::language;
use crate::syntax::language::Language;
use crate::text;

verus! {

/// One declaration around changed lines.
#[derive(Debug, Clone, PartialEq, Eq)]
pub struct SyntaxItem {
    /// Declaration without its body.
    pub declaration: String,
    /// 1-based line on which it starts; zero where it is not known.
    pub start_line: usize,
}

/// A declaration with those around it, outermost first.
#[derive(Debug, Clone, PartialEq, Eq)]
pub struct SyntaxEntry {
    /// The declarations.
    pub items: Vec<SyntaxItem>,
}

/// A direct call of a changed declaration.
#[derive(Debug, Clone, PartialEq, Eq)]
pub struct SyntaxCallSite {
    /// The calling declaration.
    pub caller: SyntaxEntry,
    /// Source line containing the call.
    pub call: String,
}

/// One side of a changed file.
#[derive(Debug, Clone, PartialEq, Eq)]
pub struct SyntaxSide {
    /// File path.
    pub path: RepoPath,
    /// Declarations associated with changed lines.
    pub entries: Vec<SyntaxEntry>,
    /// Direct callers of the changed declarations.
    pub call_sites: Vec<SyntaxCallSite>,
}

/// The declarations associated with the changed lines of a file before and after a commit.
#[derive(Debug, Clone, PartialEq, Eq)]
pub struct SyntaxContext {
    /// Language of the file.
    pub language: Language,
    /// The side before the commit, if any.
    pub before: Option<SyntaxSide>,
    /// The side after the commit, if any.
    pub after: Option<SyntaxSide>,
}

/// What a [`SyntaxItem`] holds.
pub ghost struct ItemView {
    pub declaration: Seq<char>,
    pub start_line: usize,
}

/// What a [`SyntaxCallSite`] holds.
pub ghost struct CallView {
    pub caller: Seq<ItemView>,
    pub call: Seq<char>,
}

impl View for SyntaxItem {
    type V = ItemView;

    open spec fn view(&self) -> ItemView {
        ItemView { declaration: self.declaration@, start_line: self.start_line }
    }
}

impl View for SyntaxEntry {
    type V = Seq<ItemView>;

    open spec fn view(&self) -> Seq<ItemView> {
        self.items@.map_values(|item: SyntaxItem| item@)
    }
}

impl View for SyntaxCallSite {
    type V = CallView;

    open spec fn view(&self) -> CallView {
        CallView { caller: self.caller@, call: self.call@ }
    }
}

/// What entries hold.
pub open spec fn entry_views(entries: Seq<SyntaxEntry>) -> Seq<Seq<ItemView>> {
    entries.map_values(|entry: SyntaxEntry| entry@)
}

/// What call sites hold.
pub open spec fn call_views(sites: Seq<SyntaxCallSite>) -> Seq<CallView> {
    sites.map_values(|site: SyntaxCallSite| site@)
}

/// Lines indented by a depth, each with its line feed.
pub open spec fn indented(lines: Seq<Seq<char>>, depth: nat) -> Seq<char>
    decreases lines.len(),
{
    if lines.len() == 0 {
        seq![]
    } else {
        indented(lines.drop_last(), depth) + text::repeated("  "@, depth) + lines.last() + "\n"@
    }
}

/// The declarations from one depth on, each indented by its depth.
pub open spec fn items_text(items: Seq<ItemView>, from: nat, to: nat) -> Seq<char>
    decreases to,
{
    if to <= from {
        seq![]
    } else {
        items_text(items, from, (to - 1) as nat) + indented(
            text::lines(items[to - 1].declaration),
            (to - 1) as nat,
        )
    }
}

/// The number of leading declarations that two entries share.
pub open spec fn shared_items(left: Seq<ItemView>, right: Seq<ItemView>) -> nat
    decreases left.len(),
{
    if left.len() > 0 && right.len() > 0 && left[0] == right[0] {
        1 + shared_items(left.skip(1), right.skip(1))
    } else {
        0
    }
}

/// Entries: each leaves out the parents that it shares with the one before it.
pub open spec fn entries_text(entries: Seq<Seq<ItemView>>) -> Seq<char>
    decreases entries.len(),
{
    if entries.len() == 0 {
        seq![]
    } else {
        let items = entries.last();
        let previous = if entries.len() == 1 {
            seq![]
        } else {
            entries[entries.len() - 2]
        };
        entries_text(entries.drop_last()) + items_text(
            items,
            shared_items(previous, items),
            items.len(),
        )
    }
}

/// A call below its caller.
pub open spec fn call_text(site: CallView) -> Seq<char> {
    items_text(site.caller, 0, site.caller.len()) + text::repeated("  "@, site.caller.len())
        + site.call + "\n"@
}

/// Calls below their callers.
pub open spec fn calls_text(sites: Seq<CallView>) -> Seq<char>
    decreases sites.len(),
{
    if sites.len() == 0 {
        seq![]
    } else {
        calls_text(sites.drop_last()) + call_text(sites.last())
    }
}

/// The direct callers of the changed declarations, where there are any.
pub open spec fn users_text(sites: Seq<CallView>) -> Seq<char> {
    if sites.len() == 0 {
        seq![]
    } else {
        "USED BY:\n"@ + calls_text(sites)
    }
}

/// One side, under its heading.
pub open spec fn side_text(heading: Seq<char>, side: SyntaxSide) -> Seq<char> {
    heading + entries_text(entry_views(side.entries@)) + users_text(call_views(side.call_sites@))
}

/// Whether a side holds anything.
pub open spec fn is_shown_side(side: SyntaxSide) -> bool {
    side.entries@.len() > 0 || side.call_sites@.len() > 0
}

/// The side that is shown, if it holds anything.
pub open spec fn shown_side(side: Option<SyntaxSide>) -> Option<SyntaxSide> {
    match side {
        Some(side) => if is_shown_side(side) {
            Some(side)
        } else {
            None
        },
        None => None,
    }
}

/// The declarations of an entry.
pub open spec fn declarations(items: Seq<ItemView>) -> Seq<Seq<char>> {
    items.map_values(|item: ItemView| item.declaration)
}

/// Whether two lists of entries have the same declarations.
pub open spec fn have_same_declarations(
    before: Seq<Seq<ItemView>>,
    after: Seq<Seq<ItemView>>,
) -> bool {
    &&& before.len() == after.len()
    &&& forall|i: int|
        0 <= i < before.len() ==> declarations(#[trigger] before[i]) == declarations(after[i])
}

/// A side after its heading, where it is shown.
pub open spec fn optional_side_text(heading: Seq<char>, side: Option<SyntaxSide>) -> Seq<char> {
    match side {
        Some(side) => side_text(heading, side),
        None => seq![],
    }
}

/// Both sides of a file: they are shown once where they have the same declarations.
pub open spec fn sides_text(before: Option<SyntaxSide>, after: Option<SyntaxSide>) -> Seq<char> {
    let both = optional_side_text("\nBEFORE:\n"@, before) + optional_side_text(
        "\nAFTER:\n"@,
        after,
    );
    match (before, after) {
        (Some(old_side), Some(new_side)) => if have_same_declarations(
            entry_views(old_side.entries@),
            entry_views(new_side.entries@),
        ) {
            side_text("\nCONTEXT:\n"@, new_side)
        } else {
            both
        },
        _ => both,
    }
}

/// The path of a file, or both where it was renamed.
pub open spec fn context_path(context: SyntaxContext) -> Seq<char> {
    match (context.before, context.after) {
        (Some(before), Some(after)) => if path::same(before.path@, after.path@) {
            text::lossy_utf8(after.path@)
        } else {
            text::lossy_utf8(before.path@) + " -> "@ + text::lossy_utf8(after.path@)
        },
        (None, Some(after)) => text::lossy_utf8(after.path@),
        (Some(before), None) => text::lossy_utf8(before.path@),
        (None, None) => seq![],
    }
}

/// The block of one file.
pub open spec fn context_text(context: SyntaxContext) -> Seq<char> {
    if context.before is None && context.after is None {
        seq![]
    } else {
        text::trim_end(
            "### "@ + context_path(context) + "\nlanguage: "@ + language::fence_name(
                context.language,
            ) + "\n"@ + sides_text(shown_side(context.before), shown_side(context.after)),
        )
    }
}

/// The blocks of files.
pub open spec fn context_texts(contexts: Seq<SyntaxContext>) -> Seq<Seq<char>> {
    contexts.map_values(|context: SyntaxContext| context_text(context))
}

/// The prompt section that holds the blocks.
pub open spec fn section_text(rendered: Seq<char>) -> Seq<char> {
    "\n## Syntax context\nChanged-line structure. BEFORE = base; AFTER = prospective commit.\n````text\n"@
        + rendered + "\n````\n"@
}

/// The prompt section for files, where there are any.
pub open spec fn section(contexts: Seq<SyntaxContext>) -> Seq<char> {
    if contexts.len() == 0 {
        seq![]
    } else {
        section_text(text::join(context_texts(contexts), "\n\n"@))
    }
}

/// Blocks with one more.
pub open spec fn with_block(rendered: Seq<char>, block: Seq<char>) -> Seq<char> {
    if rendered.len() == 0 {
        block
    } else {
        rendered + "\n\n"@ + block
    }
}

/// The files whose blocks fit, in order, with those blocks: each file is taken where the section
/// stays within the budget with it.
pub open spec fn selection(contexts: Seq<SyntaxContext>, budget: nat) -> (
    Seq<SyntaxContext>,
    Seq<char>,
)
    decreases contexts.len(),
{
    if contexts.len() == 0 {
        (seq![], seq![])
    } else {
        let (selected, rendered) = selection(contexts.drop_last(), budget);
        let candidate = with_block(rendered, context_text(contexts.last()));
        if tokens::tokens(section_text(candidate)) <= budget {
            (selected.push(contexts.last()), candidate)
        } else {
            (selected, rendered)
        }
    }
}

/// Append lines indented by a depth.
fn append_indented(output: &mut String, lines: &[String], depth: usize)
    ensures
        final(output)@ == old(output)@ + indented(text::texts(lines@), depth as nat),
{
    let ghost start = output@;
    let ghost views = text::texts(lines@);
    assert(output@ =~= start + indented(views.take(0), depth as nat));
    for i in 0..lines.len()
        invariant
            views == text::texts(lines@),
            output@ == start + indented(views.take(i as int), depth as nat),
    {
        assert(views.take(i + 1).drop_last() =~= views.take(i as int));
        assert(views.take(i + 1).last() == lines@[i as int]@);
        text::append_repeated(output, "  ", depth);
        output.append(&lines[i]);
        output.append("\n");
        assert(output@ =~= start + indented(views.take(i + 1), depth as nat));
    }
    assert(views.take(lines@.len() as int) =~= views);
}

/// Append the declarations of an entry from one depth on.
fn append_items(output: &mut String, entry: &SyntaxEntry, from: usize)
    requires
        from <= entry.items@.len(),
    ensures
        final(output)@ == old(output)@ + items_text(entry@, from as nat, entry@.len()),
{
    let ghost start = output@;
    let ghost items = entry@;
    assert(output@ =~= start + items_text(items, from as nat, from as nat));
    for depth in from..entry.items.len()
        invariant
            items == entry@,
            output@ == start + items_text(items, from as nat, depth as nat),
    {
        assert(items[depth as int] == entry.items@[depth as int]@);
        let ghost before = items_text(items, from as nat, depth as nat);
        let lines = text::lines_of(&entry.items[depth].declaration);
        append_indented(output, &lines, depth);
        assert(output@ =~= start + (before + indented(
            text::lines(items[depth as int].declaration),
            depth as nat,
        )));
    }
}

/// The number of leading declarations that two entries share.
fn count_shared(left: &[SyntaxItem], right: &[SyntaxItem]) -> (count: usize)
    ensures
        count == shared_items(
            left@.map_values(|item: SyntaxItem| item@),
            right@.map_values(|item: SyntaxItem| item@),
        ),
        count <= right@.len(),
{
    let ghost a = left@.map_values(|item: SyntaxItem| item@);
    let ghost b = right@.map_values(|item: SyntaxItem| item@);
    let mut count: usize = 0;
    assert(a.skip(0) =~= a);
    assert(b.skip(0) =~= b);
    while count < left.len() && count < right.len()
        invariant
            a == left@.map_values(|item: SyntaxItem| item@),
            b == right@.map_values(|item: SyntaxItem| item@),
            count <= left@.len(),
            count <= right@.len(),
            shared_items(a, b) == count + shared_items(a.skip(count as int), b.skip(count as int)),
        decreases left.len() - count,
    {
        assert(a.skip(count as int)[0] == left@[count as int]@);
        assert(b.skip(count as int)[0] == right@[count as int]@);
        assert(a.skip(count as int).skip(1) =~= a.skip(count + 1));
        assert(b.skip(count as int).skip(1) =~= b.skip(count + 1));
        if left[count].start_line != right[count].start_line || !text::same_text(
            &left[count].declaration,
            &right[count].declaration,
        ) {
            return count;
        }
        count = count + 1;
    }
    count
}

/// Append syntax entries while suppressing repeated parent declarations.
pub fn render_entries(output: &mut String, entries: &[SyntaxEntry])
    ensures
        final(output)@ == old(output)@ + entries_text(entry_views(entries@)),
{
    let ghost start = output@;
    let ghost views = entry_views(entries@);
    assert(output@ =~= start + entries_text(views.take(0)));
    for i in 0..entries.len()
        invariant
            views == entry_views(entries@),
            output@ == start + entries_text(views.take(i as int)),
    {
        assert(views.take(i + 1).drop_last() =~= views.take(i as int));
        assert(views.take(i + 1).last() == entries@[i as int]@);
        let ghost before = entries_text(views.take(i as int));
        let common = if i == 0 {
            assert(shared_items(seq![], entries@[0]@) == 0);
            0
        } else {
            assert(views.take(i + 1)[i - 1] == entries@[i - 1]@);
            count_shared(&entries[i - 1].items, &entries[i].items)
        };
        append_items(output, &entries[i], common);
        assert(output@ =~= start + entries_text(views.take(i + 1)));
    }
    assert(views.take(entries@.len() as int) =~= views);
}

/// Append direct caller context for changed functions and methods.
pub fn render_call_sites(output: &mut String, call_sites: &[SyntaxCallSite])
    ensures
        final(output)@ == old(output)@ + users_text(call_views(call_sites@)),
{
    let ghost start = output@;
    let ghost views = call_views(call_sites@);
    if call_sites.len() == 0 {
        assert(output@ =~= start + users_text(views));
        return ;
    }
    output.append("USED BY:\n");
    let ghost begun = output@;
    assert(output@ =~= begun + calls_text(views.take(0)));
    for i in 0..call_sites.len()
        invariant
            views == call_views(call_sites@),
            output@ == begun + calls_text(views.take(i as int)),
    {
        assert(views.take(i + 1).drop_last() =~= views.take(i as int));
        let site = &call_sites[i];
        assert(views.take(i + 1).last() == site@);
        let ghost before = calls_text(views.take(i as int));
        append_items(output, &site.caller, 0);
        text::append_repeated(output, "  ", site.caller.items.len());
        output.append(&site.call);
        output.append("\n");
        assert(output@ =~= begun + (before + call_text(site@)));
    }
    assert(views.take(call_sites@.len() as int) =~= views);
    assert(output@ =~= start + users_text(views));
}

/// Check whether two syntax-entry lists have the same declarations.
pub fn same_entries(before: &[SyntaxEntry], after: &[SyntaxEntry]) -> (result: bool)
    ensures
        result == have_same_declarations(entry_views(before@), entry_views(after@)),
{
    let ghost a = entry_views(before@);
    let ghost b = entry_views(after@);
    if before.len() != after.len() {
        assert(a.len() != b.len());
        return false;
    }
    for i in 0..before.len()
        invariant
            a == entry_views(before@),
            b == entry_views(after@),
            before@.len() == after@.len(),
            forall|j: int| 0 <= j < i ==> declarations(#[trigger] a[j]) == declarations(b[j]),
    {
        assert(a[i as int] == before@[i as int]@);
        assert(b[i as int] == after@[i as int]@);
        if !same_declarations(&before[i], &after[i]) {
            return false;
        }
    }
    true
}

/// Whether two entries have the same declarations.
fn same_declarations(before: &SyntaxEntry, after: &SyntaxEntry) -> (result: bool)
    ensures
        result == (declarations(before@) == declarations(after@)),
{
    let ghost a = declarations(before@);
    let ghost b = declarations(after@);
    if before.items.len() != after.items.len() {
        assert(a.len() != b.len());
        return false;
    }
    for i in 0..before.items.len()
        invariant
            a == declarations(before@),
            b == declarations(after@),
            before.items@.len() == after.items@.len(),
            forall|j: int| 0 <= j < i ==> #[trigger] a[j] == b[j],
    {
        assert(a[i as int] == before.items@[i as int].declaration@);
        assert(b[i as int] == after.items@[i as int].declaration@);
        if !text::same_text(&before.items[i].declaration, &after.items[i].declaration) {
            return false;
        }
    }
    assert(a =~= b);
    true
}

/// Append one side, under its heading.
fn append_side(output: &mut String, heading: &str, side: &SyntaxSide)
    ensures
        final(output)@ == old(output)@ + side_text(heading@, *side),
{
    let ghost start = output@;
    output.append(heading);
    render_entries(output, &side.entries);
    render_call_sites(output, &side.call_sites);
    assert(output@ =~= start + side_text(heading@, *side));
}

/// The side that is shown, if it holds anything.
fn filled_side(side: &Option<SyntaxSide>) -> (result: Option<&SyntaxSide>)
    ensures
        match result {
            Some(found) => shown_side(*side) == Some(*found),
            None => shown_side(*side) is None,
        },
{
    match side {
        Some(side) => {
            if side.entries.len() > 0 || side.call_sites.len() > 0 {
                Some(side)
            } else {
                None
            }
        },
        None => None,
    }
}

/// Render one file's before-and-after syntax context.
pub fn render_syntax_context(context: &SyntaxContext) -> (result: String)
    ensures
        result@ == context_text(*context),
{
    let mut rendered = "### ".to_owned();
    match (&context.before, &context.after) {
        (Some(before), Some(after)) => {
            if !before.path.same_as(&after.path) {
                rendered.append(&before.path.display());
                rendered.append(" -> ");
            }
            rendered.append(&after.path.display());
        },
        (None, Some(after)) => rendered.append(&after.path.display()),
        (Some(before), None) => rendered.append(&before.path.display()),
        (None, None) => return String::new(),
    }
    assert(rendered@ =~= "### "@ + context_path(*context));
    rendered.append("\nlanguage: ");
    rendered.append(context.language.fence_name());
    rendered.append("\n");
    let ghost head = rendered@;
    let before = filled_side(&context.before);
    let after = filled_side(&context.after);
    let shared = match (before, after) {
        (Some(old_side), Some(new_side)) => same_entries(&old_side.entries, &new_side.entries),
        _ => false,
    };
    if shared {
        if let Some(new_side) = after {
            append_side(&mut rendered, "\nCONTEXT:\n", new_side);
        }
    } else {
        if let Some(old_side) = before {
            append_side(&mut rendered, "\nBEFORE:\n", old_side);
        }
        if let Some(new_side) = after {
            append_side(&mut rendered, "\nAFTER:\n", new_side);
        }
    }
    assert(rendered@ =~= head + sides_text(
        shown_side(context.before),
        shown_side(context.after),
    ));
    text::right_trimmed(&rendered)
}

/// Wrap rendered syntax context in its prompt section.
pub fn syntax_context_section_text(rendered: &str) -> (result: String)
    ensures
        result@ == section_text(rendered@),
{
    let mut result =
        "\n## Syntax context\nChanged-line structure. BEFORE = base; AFTER = prospective commit.\n````text\n".to_owned();
    result.append(rendered);
    result.append("\n````\n");
    result
}

/// Render an optional syntax-context section.
pub fn syntax_context_section(contexts: &[SyntaxContext]) -> (result: String)
    ensures
        result@ == section(contexts@),
{
    if contexts.len() == 0 {
        let result = String::new();
        assert(result@ =~= seq![]);
        return result;
    }
    let mut blocks: Vec<String> = Vec::new();
    assert(text::texts(blocks@) =~= context_texts(contexts@).take(0));
    for i in 0..contexts.len()
        invariant
            text::texts(blocks@) == context_texts(contexts@).take(i as int),
    {
        let block = render_syntax_context(&contexts[i]);
        proof {
            text::lemma_texts_push(blocks@, block);
        }
        blocks.push(block);
        assert(text::texts(blocks@) =~= context_texts(contexts@).take(i + 1));
    }
    assert(context_texts(contexts@).take(contexts@.len() as int) =~= context_texts(contexts@));
    syntax_context_section_text(&text::joined(&blocks, "\n\n"))
}

/// Keep complete file contexts in commit order within the global supporting-evidence budget.
pub fn select_syntax_contexts(contexts: Vec<SyntaxContext>, budget: usize) -> (selected: Vec<
    SyntaxContext,
>)
    ensures
        selected@ == selection(contexts@, budget as nat).0,
{
    let ghost all = contexts@;
    let mut selected: Vec<SyntaxContext> = Vec::new();
    let mut rendered = String::new();
    assert(rendered@ =~= seq![]);
    assert(all.take(0) =~= seq![]);
    for context in iter: contexts
        invariant
            iter.seq() == all,
            (selected@, rendered@) == selection(all.take(iter.index() as int), budget as nat),
    {
        let ghost at = iter.index() as int;
        assert(context == all[at]);
        assert(all.take(at + 1).drop_last() =~= all.take(at));
        assert(all.take(at + 1).last() == context);
        let block = render_syntax_context(&context);
        let mut candidate = String::new();
        if !rendered.as_str().is_empty() {
            candidate.append(&rendered);
            candidate.append("\n\n");
        }
        candidate.append(&block);
        assert(candidate@ =~= with_block(rendered@, block@));
        if tokens::estimate_tokens(&syntax_context_section_text(&candidate)) <= budget {
            rendered = candidate;
            selected.push(context);
        }
    }
    assert(all.take(all.len() as int) =~= all);
    selected
}

/// Whether one sequence is left of another where some items are left out.
pub open spec fn is_subsequence<T>(part: Seq<T>, whole: Seq<T>) -> bool
    decreases whole.len(),
{
    if part.len() == 0 {
        true
    } else if whole.len() == 0 {
        false
    } else {
        (part.last() == whole.last() && is_subsequence(part.drop_last(), whole.drop_last()))
            || is_subsequence(part, whole.drop_last())
    }
}

/// Complete file contexts are kept or left out, and those that are kept stay in order.
pub proof fn lemma_selection_keeps_order(contexts: Seq<SyntaxContext>, budget: nat)
    ensures
        is_subsequence(selection(contexts, budget).0, contexts),
    decreases contexts.len(),
{
    if contexts.len() > 0 {
        lemma_selection_keeps_order(contexts.drop_last(), budget);
        let before = selection(contexts.drop_last(), budget).0;
        assert(before.push(contexts.last()).drop_last() =~= before);
    }
}

/// Whether a file context has a side.
pub open spec fn has_side(context: SyntaxContext) -> bool {
    context.before is Some || context.after is Some
}

proof fn lemma_trimmed_text_is_not_empty(text: Seq<char>)
    requires
        text.len() > 0,
        !text::is_space(text[0]),
    ensures
        text::trim_end(text).len() > 0,
    decreases text.len(),
{
    if text::is_space(text.last()) {
        lemma_trimmed_text_is_not_empty(text.drop_last());
    }
}

proof fn lemma_context_text_is_not_empty(context: SyntaxContext)
    requires
        has_side(context),
    ensures
        context_text(context).len() > 0,
{
    reveal_strlit("### ");
    let whole = "### "@ + context_path(context) + "\nlanguage: "@ + language::fence_name(
        context.language,
    ) + "\n"@ + sides_text(shown_side(context.before), shown_side(context.after));
    assert(whole[0] == '#');
    lemma_trimmed_text_is_not_empty(whole);
}

proof fn lemma_selected_blocks(contexts: Seq<SyntaxContext>, budget: nat)
    requires
        forall|i: int| 0 <= i < contexts.len() ==> has_side(#[trigger] contexts[i]),
    ensures
        ({
            let (selected, rendered) = selection(contexts, budget);
            &&& rendered == text::join(context_texts(selected), "\n\n"@)
            &&& selected.len() == 0 <==> rendered.len() == 0
            &&& selected.len() > 0 ==> tokens::tokens(section_text(rendered)) <= budget
        }),
    decreases contexts.len(),
{
    if contexts.len() > 0 {
        let rest = contexts.drop_last();
        assert forall|i: int| 0 <= i < rest.len() implies has_side(#[trigger] rest[i]) by {
            assert(rest[i] == contexts[i]);
        }
        lemma_selected_blocks(rest, budget);
        assert(has_side(contexts[contexts.len() - 1]));
        lemma_context_text_is_not_empty(contexts.last());
        let (before, rendered) = selection(rest, budget);
        let after = before.push(contexts.last());
        let block = context_text(contexts.last());
        assert(context_texts(after) =~= context_texts(before).push(block));
        assert(context_texts(after).drop_last() =~= context_texts(before));
        assert(with_block(rendered, block) == text::join(context_texts(after), "\n\n"@));
    }
}

/// The section for the selected files is within the budget, where there are any.
pub proof fn lemma_selection_is_within_the_budget(contexts: Seq<SyntaxContext>, budget: nat)
    requires
        forall|i: int| 0 <= i < contexts.len() ==> has_side(#[trigger] contexts[i]),
    ensures
        selection(contexts, budget).0.len() > 0 ==> tokens::tokens(
            section(selection(contexts, budget).0),
        ) <= budget,
{
    lemma_selected_blocks(contexts, budget);
}

proof fn lemma_rendered_blocks(contexts: Seq<SyntaxContext>, budget: nat, context: SyntaxContext)
    requires
        forall|i: int| 0 <= i < contexts.len() ==> has_side(#[trigger] contexts[i]),
    ensures
        ({
            let (selected, rendered) = selection(contexts, budget);
            section(selected.push(context)) == section_text(
                with_block(rendered, context_text(context)),
            )
        }),
{
    lemma_selected_blocks(contexts, budget);
    let (selected, rendered) = selection(contexts, budget);
    let block = context_text(context);
    assert(context_texts(selected.push(context)) =~= context_texts(selected).push(block));
    assert(context_texts(selected.push(context)).drop_last() =~= context_texts(selected));
}

/// A context is left out only where it does not fit: it joins those selected before it exactly
/// where the section of all of them is within the budget, and leaves them as they are otherwise.
pub proof fn lemma_contexts_are_left_out_only_beyond_the_budget(
    contexts: Seq<SyntaxContext>,
    context: SyntaxContext,
    budget: nat,
)
    requires
        forall|i: int| 0 <= i < contexts.len() ==> has_side(#[trigger] contexts[i]),
    ensures
        ({
            let before = selection(contexts, budget).0;
            let after = selection(contexts.push(context), budget).0;
            &&& tokens::tokens(section(before.push(context))) <= budget ==> after == before.push(
                context,
            )
            &&& tokens::tokens(section(before.push(context))) > budget ==> after == before
        }),
{
    assert(contexts.push(context).drop_last() =~= contexts);
    lemma_rendered_blocks(contexts, budget, context);
}

proof fn lemma_sections_grow(contexts: Seq<SyntaxContext>)
    requires
        contexts.len() > 0,
    ensures
        tokens::tokens(section(contexts.drop_last())) <= tokens::tokens(section(contexts)),
{
    let rest = contexts.drop_last();
    if rest.len() > 0 {
        let short = text::join(context_texts(rest), "\n\n"@);
        let long = text::join(context_texts(contexts), "\n\n"@);
        assert(context_texts(contexts).drop_last() =~= context_texts(rest));
        let more = "\n\n"@ + context_texts(contexts).last();
        assert(long =~= short + more);
        let head =
            "\n## Syntax context\nChanged-line structure. BEFORE = base; AFTER = prospective commit.\n````text\n"@;
        let tail = "\n````\n"@;
        tokens::lemma_byte_len_concat(head, short);
        tokens::lemma_byte_len_concat(head + short, tail);
        tokens::lemma_byte_len_concat(short, more);
        tokens::lemma_byte_len_concat(head, long);
        tokens::lemma_byte_len_concat(head + long, tail);
        tokens::lemma_tokens_grow(
            text::byte_len(section_text(short)),
            text::byte_len(section_text(long)),
        );
    } else {
        assert(section(rest) =~= seq![]);
        assert(vstd::utf8::encode_utf8(section(rest)) =~= seq![]);
    }
}

/// Where the section of all contexts is within the budget, all contexts are selected.
pub proof fn lemma_contexts_that_fit_are_all_selected(contexts: Seq<SyntaxContext>, budget: nat)
    requires
        forall|i: int| 0 <= i < contexts.len() ==> has_side(#[trigger] contexts[i]),
        tokens::tokens(section(contexts)) <= budget,
    ensures
        selection(contexts, budget).0 == contexts,
    decreases contexts.len(),
{
    if contexts.len() > 0 {
        let rest = contexts.drop_last();
        assert forall|i: int| 0 <= i < rest.len() implies has_side(#[trigger] rest[i]) by {
            assert(rest[i] == contexts[i]);
        }
        lemma_sections_grow(contexts);
        lemma_contexts_that_fit_are_all_selected(rest, budget);
        assert(rest.push(contexts.last()) =~= contexts);
        lemma_contexts_are_left_out_only_beyond_the_budget(rest, contexts.last(), budget);
    } else {
        assert(contexts =~= seq![]);
    }
}

/// The section holds the block of every context.
pub proof fn lemma_sections_hold_every_block(contexts: Seq<SyntaxContext>, i: int)
    requires
        0 <= i < contexts.len(),
    ensures
        text::occurs(context_text(contexts[i]), section(contexts)),
{
    let blocks = context_texts(contexts);
    assert(blocks[i] == context_text(contexts[i]));
    text::lemma_joined_parts_occur(blocks, "\n\n"@, i);
    text::lemma_occurs_within(
        blocks[i],
        "\n## Syntax context\nChanged-line structure. BEFORE = base; AFTER = prospective commit.\n````text\n"@,
        text::join(blocks, "\n\n"@),
        "\n````\n"@,
    );
}

/// A section with a context needs tokens.
pub proof fn lemma_sections_need_tokens(contexts: Seq<SyntaxContext>)
    requires
        contexts.len() > 0,
    ensures
        tokens::tokens(section(contexts)) > 0,
{
    let head =
        "\n## Syntax context\nChanged-line structure. BEFORE = base; AFTER = prospective commit.\n````text\n"@;
    let tail = "\n````\n"@;
    reveal_strlit("\n````\n");
    let rendered = text::join(context_texts(contexts), "\n\n"@);
    tokens::lemma_byte_len_concat(head + rendered, tail);
    let start = tail.drop_last();
    assert(tail =~= start.push('\n'));
    tokens::lemma_byte_len_push(start, '\n');
}

proof fn lemma_indented_lines_occur(lines: Seq<Seq<char>>, depth: nat, i: int)
    requires
        0 <= i < lines.len(),
    ensures
        text::occurs(
            text::repeated("  "@, depth) + lines[i] + "\n"@,
            indented(lines, depth),
        ),
    decreases lines.len(),
{
    let rest = lines.drop_last();
    let before = indented(rest, depth);
    let line = text::repeated("  "@, depth) + lines[i] + "\n"@;
    let last = text::repeated("  "@, depth) + lines.last() + "\n"@;
    assert(indented(lines, depth) =~= before + last + seq![]);
    assert(indented(lines, depth) =~= seq![] + before + last);
    if i == lines.len() - 1 {
        text::lemma_occurs_in_itself(line);
        text::lemma_occurs_within(line, before, last, seq![]);
    } else {
        assert(rest[i] == lines[i]);
        lemma_indented_lines_occur(rest, depth, i);
        text::lemma_occurs_within(line, seq![], before, last);
    }
}

proof fn lemma_items_occur(items: Seq<ItemView>, from: nat, to: nat, depth: int, part: Seq<char>)
    requires
        from <= depth < to <= items.len(),
        text::occurs(part, indented(text::lines(items[depth].declaration), depth as nat)),
    ensures
        text::occurs(part, items_text(items, from, to)),
    decreases to,
{
    let before = items_text(items, from, (to - 1) as nat);
    let last = indented(text::lines(items[to - 1].declaration), (to - 1) as nat);
    assert(items_text(items, from, to) =~= before + last + seq![]);
    assert(items_text(items, from, to) =~= seq![] + before + last);
    if depth == to - 1 {
        text::lemma_occurs_within(part, before, last, seq![]);
    } else {
        lemma_items_occur(items, from, (to - 1) as nat, depth, part);
        text::lemma_occurs_within(part, seq![], before, last);
    }
}

proof fn lemma_shared_items_agree(left: Seq<ItemView>, right: Seq<ItemView>, depth: int)
    ensures
        shared_items(left, right) <= left.len(),
        shared_items(left, right) <= right.len(),
        0 <= depth < shared_items(left, right) ==> left[depth] == right[depth],
    decreases left.len(),
{
    if left.len() > 0 && right.len() > 0 && left[0] == right[0] {
        lemma_shared_items_agree(left.skip(1), right.skip(1), depth - 1);
        if 0 < depth < shared_items(left, right) {
            assert(left.skip(1)[depth - 1] == left[depth]);
            assert(right.skip(1)[depth - 1] == right[depth]);
        }
    }
}

/// No declaration is lost where parents are shown only once: every line of every declaration of
/// every entry stands in the text, indented by its depth.
pub proof fn lemma_entries_show_every_declaration(
    entries: Seq<Seq<ItemView>>,
    i: int,
    depth: int,
    line: int,
)
    requires
        0 <= i < entries.len(),
        0 <= depth < entries[i].len(),
        0 <= line < text::lines(entries[i][depth].declaration).len(),
    ensures
        text::occurs(
            text::repeated("  "@, depth as nat) + text::lines(
                entries[i][depth].declaration,
            )[line] + "\n"@,
            entries_text(entries),
        ),
    decreases entries.len(), i,
{
    let lines = text::lines(entries[i][depth].declaration);
    let part = text::repeated("  "@, depth as nat) + lines[line] + "\n"@;
    let rest = entries.drop_last();
    let items = entries.last();
    let previous = if entries.len() == 1 {
        seq![]
    } else {
        entries[entries.len() - 2]
    };
    let from = shared_items(previous, items);
    let before = entries_text(rest);
    let last = items_text(items, from, items.len());
    lemma_shared_items_agree(previous, items, depth);
    assert(entries_text(entries) =~= before + last + seq![]);
    assert(entries_text(entries) =~= seq![] + before + last);
    if i == entries.len() - 1 && depth >= from {
        lemma_indented_lines_occur(lines, depth as nat, line);
        lemma_items_occur(items, from, items.len(), depth, part);
        text::lemma_occurs_within(part, before, last, seq![]);
    } else {
        let at = if i == entries.len() - 1 {
            i - 1
        } else {
            i
        };
        assert(rest[at] == entries[at]);
        lemma_entries_show_every_declaration(rest, at, depth, line);
        text::lemma_occurs_within(part, seq![], before, last);
    }
}

/// Every call is shown on a line of its own below its caller.
pub proof fn lemma_every_call_is_shown(sites: Seq<CallView>, i: int)
    requires
        0 <= i < sites.len(),
    ensures
        text::starts_with(users_text(sites), "USED BY:\n"@),
        text::occurs(
            text::repeated("  "@, sites[i].caller.len()) + sites[i].call + "\n"@,
            users_text(sites),
        ),
{
    let part = text::repeated("  "@, sites[i].caller.len()) + sites[i].call + "\n"@;
    lemma_calls_occur(sites, i);
    text::lemma_occurs_within(part, "USED BY:\n"@, calls_text(sites), seq![]);
    assert("USED BY:\n"@ + calls_text(sites) + seq![] =~= users_text(sites));
    assert(users_text(sites).take("USED BY:\n"@.len() as int) =~= "USED BY:\n"@);
}

proof fn lemma_call_occurs(site: CallView)
    ensures
        text::occurs(
            text::repeated("  "@, site.caller.len()) + site.call + "\n"@,
            call_text(site),
        ),
{
    text::lemma_endings_occur(
        items_text(site.caller, 0, site.caller.len()),
        text::repeated("  "@, site.caller.len()),
        site.call,
        "\n"@,
    );
}

proof fn lemma_calls_occur(sites: Seq<CallView>, i: int)
    requires
        0 <= i < sites.len(),
    ensures
        text::occurs(
            text::repeated("  "@, sites[i].caller.len()) + sites[i].call + "\n"@,
            calls_text(sites),
        ),
    decreases sites.len(),
{
    let part = text::repeated("  "@, sites[i].caller.len()) + sites[i].call + "\n"@;
    let rest = sites.drop_last();
    let before = calls_text(rest);
    let last = call_text(sites.last());
    if i == sites.len() - 1 {
        lemma_call_occurs(sites[i]);
        text::lemma_occurs_within(part, before, last, seq![]);
        assert(before + last + seq![] =~= before + last);
    } else {
        assert(rest[i] == sites[i]);
        lemma_calls_occur(rest, i);
        text::lemma_occurs_within(part, seq![], before, last);
        assert(seq![] + before + last =~= before + last);
    }
}

/// A side that holds anything is shown under the heading that says which it is; sides with the same
/// declarations are shown once, as the side after the commit.
pub proof fn lemma_sides_stand_under_their_heading(before: SyntaxSide, after: SyntaxSide)
    requires
        is_shown_side(before),
        is_shown_side(after),
    ensures
        sides_text(None, Some(after)) == side_text("\nAFTER:\n"@, after),
        sides_text(Some(before), None) == side_text("\nBEFORE:\n"@, before),
        have_same_declarations(entry_views(before.entries@), entry_views(after.entries@))
            ==> sides_text(Some(before), Some(after)) == side_text("\nCONTEXT:\n"@, after),
        !have_same_declarations(entry_views(before.entries@), entry_views(after.entries@))
            ==> sides_text(Some(before), Some(after)) == sides_text(Some(before), None)
            + sides_text(None, Some(after)),
        shown_side(Some(before)) == Some(before),
{
    assert(sides_text(None, Some(after)) =~= side_text("\nAFTER:\n"@, after));
    assert(sides_text(Some(before), None) =~= side_text("\nBEFORE:\n"@, before));
}

proof fn lemma_firm_start_is_kept(start: Seq<char>, rest: Seq<char>)
    requires
        start.len() > 0,
        !text::is_space(start.last()),
    ensures
        text::starts_with(text::trim_end(start + rest), start),
    decreases rest.len(),
{
    let whole = start + rest;
    if rest.len() > 0 && text::is_space(whole.last()) {
        assert(whole.drop_last() =~= start + rest.drop_last());
        lemma_firm_start_is_kept(start, rest.drop_last());
    } else {
        if rest.len() == 0 {
            assert(whole =~= start);
        }
        assert(text::trim_end(whole) == whole);
        assert(whole.take(start.len() as int) =~= start);
    }
}

/// The block of a file starts with its path and the name of its language.
pub proof fn lemma_blocks_name_their_file(context: SyntaxContext)
    requires
        has_side(context),
    ensures
        text::starts_with(
            context_text(context),
            "### "@ + context_path(context) + "\nlanguage: "@ + language::fence_name(
                context.language,
            ),
        ),
{
    let start = "### "@ + context_path(context) + "\nlanguage: "@ + language::fence_name(
        context.language,
    );
    let sides = sides_text(shown_side(context.before), shown_side(context.after));
    let rest = "\n"@ + sides;
    lemma_language_names_are_firm(context.language);
    assert(start.last() == language::fence_name(context.language).last());
    lemma_firm_start_is_kept(start, rest);
    assert(start + rest =~= start + "\n"@ + sides);
}

#[verifier::rlimit(50)]
proof fn lemma_language_names_are_firm(language: Language)
    ensures
        language::fence_name(language).len() > 0,
        !text::is_space(language::fence_name(language).last()),
{
    reveal_strlit("rust");
    reveal_strlit("c");
    reveal_strlit("cpp");
    reveal_strlit("python");
    reveal_strlit("swift");
    reveal_strlit("bash");
    reveal_strlit("javascript");
    reveal_strlit("typescript");
    reveal_strlit("tsx");
    reveal_strlit("css");
    reveal_strlit("html");
    reveal_strlit("toml");
    reveal_strlit("json");
}

/// The path of a file is shown once, unless it is renamed: then the old one and the new one are.
pub proof fn lemma_renamed_files_show_both_paths(context: SyntaxContext)
    ensures
        context.before matches Some(before) && context.after matches Some(after) && !path::same(
            before.path@,
            after.path@,
        ) ==> context_path(context) == text::lossy_utf8(context.before->0.path@) + " -> "@
            + text::lossy_utf8(context.after->0.path@),
        context.after matches Some(after) && (context.before is None || path::same(
            context.before->0.path@,
            after.path@,
        )) ==> context_path(context) == text::lossy_utf8(context.after->0.path@),
        context.before is Some && context.after is None ==> context_path(context)
            == text::lossy_utf8(context.before->0.path@),
{
}

} // verus!
