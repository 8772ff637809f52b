use git_scribe::generation::context::{
    render_syntax_context, select_syntax_contexts, syntax_context_section,
    syntax_context_section_text, SyntaxCallSite, SyntaxContext, SyntaxEntry, SyntaxItem,
    SyntaxSide,
};
use git_scribe::generation::diff::{filtered_diff, is_excluded, patch_blocks};
use git_scribe::generation::evidence::evidence_for_change;
use git_scribe::generation::layout::{
    display_path_component, render_working_tree, working_tree_text,
};
use git_scribe::generation::prompt::{
    commit_history_text, file_change_status_text, history_limit, readme, syntax_contexts,
};
use git_scribe::generation::response::PropertyType;
use git_scribe::generation::tokens::{clip_tokens, estimate_tokens, CLIP_SUFFIX};
use git_scribe::generation::{
    ChangeKind, CommitMessage, Confidence, Prompt, PromptError, PromptEstimate, RepositoryContext,
};
use git_scribe::git::walk::{EntryKind, WalkStep, WorkingTreeWalk};
use git_scribe::git::{
    CommitChange, CommitChangeKind, CommitMode, CommitStats, DiffHunk, FileMode, FileVersion,
    LineRange, ObjectId, ProspectiveCommit,
};
use git_scribe::path::RepoPath;
use git_scribe::syntax::Language;

fn path(text: &str) -> RepoPath {
    RepoPath::from_text(text)
}

fn item(declaration: &str, start_line: usize) -> SyntaxItem {
    SyntaxItem { declaration: declaration.to_owned(), start_line }
}

fn side(name: &str, items: Vec<SyntaxItem>) -> SyntaxSide {
    SyntaxSide {
        path: path(name),
        entries: vec![SyntaxEntry { items }],
        call_sites: Vec::new(),
    }
}

fn modified(name: &str) -> CommitChange {
    let version = |id: u8| FileVersion {
        path: path(name),
        oid: ObjectId { bytes: vec![id; 20] },
        mode: FileMode::Blob,
    };
    let range = Some(LineRange { start: 1, count: 1 });
    CommitChange {
        kind: CommitChangeKind::Modified { before: version(1), after: version(2) },
        hunks: vec![DiffHunk { before: range, after: range }],
    }
}

fn block(name: &str, removed: &str, added: &str) -> String {
    format!("diff --git a/{name} b/{name}\n--- a/{name}\n+++ b/{name}\n@@ -1 +1 @@\n-{removed}\n+{added}\n")
}

fn commit(changes: Vec<CommitChange>, patch: &str) -> ProspectiveCommit {
    let files_changed = changes.len();
    ProspectiveCommit {
        mode: CommitMode::Normal,
        changes,
        patch: patch.as_bytes().to_vec(),
        stats: CommitStats {
            files_changed,
            insertions: files_changed,
            deletions: files_changed,
        },
    }
}

fn repository(syntax: Vec<SyntaxContext>) -> RepositoryContext {
    RepositoryContext {
        branch: Some("main".to_owned()),
        files: vec![path("README.md"), path("src/main.rs")],
        subjects: vec!["initial".to_owned()],
        readme: Some(b"# Project\n".to_vec()),
        syntax,
    }
}

fn message(subject: &str, body: Option<&str>) -> CommitMessage {
    CommitMessage {
        intent: "Explain".to_owned(),
        key_changes: vec!["one".to_owned()],
        change_kind: ChangeKind::BugFix,
        confidence: Confidence::High,
        subject: subject.to_owned(),
        body: body.map(str::to_owned),
    }
}

#[test]
fn identical_sides_render_once_as_shared_context() {
    let items = vec![item("impl ApiClient", 1), item("fn request(&self)", 2)];
    let context = SyntaxContext {
        language: Language::Rust,
        before: Some(side("src/client.rs", items.clone())),
        after: Some(side("src/client.rs", items)),
    };

    assert_eq!(
        render_syntax_context(&context),
        "### src/client.rs\nlanguage: rust\n\nCONTEXT:\nimpl ApiClient\n  fn request(&self)"
    );
}

#[test]
fn changed_structure_renders_before_and_after_separately() {
    let context = SyntaxContext {
        language: Language::Rust,
        before: Some(side("src/client.rs", vec![item("impl OldClient", 1)])),
        after: Some(side("src/client.rs", vec![item("impl Client", 1)])),
    };

    assert_eq!(
        render_syntax_context(&context),
        "### src/client.rs\nlanguage: rust\n\nBEFORE:\nimpl OldClient\n\nAFTER:\nimpl Client"
    );
}

#[test]
fn caller_context_is_rendered_after_changed_declarations() {
    let context = SyntaxContext {
        language: Language::Rust,
        before: None,
        after: Some(SyntaxSide {
            path: path("src/terminal/progress.rs"),
            entries: vec![SyntaxEntry {
                items: vec![item("fn thinking_preview_columns() -> usize", 1)],
            }],
            call_sites: vec![SyntaxCallSite {
                caller: SyntaxEntry {
                    items: vec![item("impl ChatProgress", 1), item("fn new() -> Self", 2)],
                },
                call: "thinking_preview: ThinkingPreview::new(thinking_preview_columns()),"
                    .to_owned(),
            }],
        }),
    };

    assert_eq!(
        render_syntax_context(&context),
        "### src/terminal/progress.rs\nlanguage: rust\n\nAFTER:\nfn thinking_preview_columns() -> usize\nUSED BY:\nimpl ChatProgress\n  fn new() -> Self\n    thinking_preview: ThinkingPreview::new(thinking_preview_columns()),"
    );
}

#[test]
fn global_budget_keeps_complete_contexts_in_commit_order() {
    let first = SyntaxContext {
        language: Language::Json,
        before: None,
        after: Some(side("config.json", vec![item("\"timeout\":", 1)])),
    };
    let second = SyntaxContext {
        language: Language::Rust,
        before: None,
        after: Some(side("src/client.rs", vec![item("fn request()", 1)])),
    };
    let budget = estimate_tokens(&syntax_context_section_text(&render_syntax_context(&first)));

    let selected = select_syntax_contexts(vec![first, second], budget);
    assert_eq!(selected.len(), 1);
    assert_eq!(selected[0].after.as_ref().unwrap().path, path("config.json"));
    assert!(estimate_tokens(&syntax_context_section(&selected)) <= budget);
}

#[test]
fn repeated_parents_are_rendered_once() {
    let context = SyntaxContext {
        language: Language::Rust,
        before: None,
        after: Some(SyntaxSide {
            path: path("a.rs"),
            entries: vec![
                SyntaxEntry { items: vec![item("mod m", 1), item("fn a()", 2)] },
                SyntaxEntry { items: vec![item("mod m", 1), item("fn b()", 5)] },
                SyntaxEntry { items: vec![item("mod m", 9), item("fn c()", 10)] },
            ],
            call_sites: Vec::new(),
        }),
    };
    assert_eq!(
        render_syntax_context(&context),
        "### a.rs\nlanguage: rust\n\nAFTER:\nmod m\n  fn a()\n  fn b()\nmod m\n  fn c()"
    );
    let none = SyntaxContext { language: Language::Rust, before: None, after: None };
    assert_eq!(render_syntax_context(&none), "");
    assert_eq!(syntax_context_section(&[]), "");
}

#[test]
fn working_tree_renderer_compacts_common_directories() {
    let files = [path("README.md"), path("src/git/mod.rs"), path("src/main.rs")];

    assert_eq!(
        render_working_tree(&files),
        "README.md\nsrc/\n  git/\n    mod.rs\n  main.rs"
    );
}

#[test]
fn working_tree_renderer_escapes_line_breaks_in_paths() {
    assert_eq!(render_working_tree(&[path("line\nbreak.rs")]), "line\\nbreak.rs");
    assert_eq!(display_path_component(b"a\rb"), "a\\rb");
}

#[test]
fn large_working_trees_are_cut() {
    assert_eq!(working_tree_text(&[]), "(working tree is empty)");
    let files = (0..502).map(|n| path(&format!("f{n:03}"))).collect::<Vec<_>>();
    let shown = working_tree_text(&files);
    assert!(shown.starts_with("f000\nf001\n"));
    assert!(shown.ends_with("f499... (2 more files omitted)\n"));
}

#[test]
fn working_tree_context_includes_only_non_ignored_files() {
    let mut walk = WorkingTreeWalk::new();
    let mut inspected = Vec::new();
    loop {
        match walk.step() {
            WalkStep::List { directory } => {
                let names: &[&str] = match directory.display().as_str() {
                    "" => &[
                        "visible.txt",
                        ".git",
                        "nested",
                        ".gitignore",
                        "ignored.txt",
                        "ignored-directory",
                    ],
                    "nested" => &["untracked.rs"],
                    other => panic!("listed {other}"),
                };
                let names = names.iter().map(|name| name.as_bytes().to_vec()).collect::<Vec<_>>();
                walk.listed(&names);
            }
            WalkStep::Inspect { path } => {
                let name = path.display();
                walk.inspected(match name.as_str() {
                    "ignored.txt" | "ignored-directory" => EntryKind::Ignored,
                    "nested" => EntryKind::Directory,
                    _ => EntryKind::File,
                });
                inspected.push(name);
            }
            WalkStep::Done => break,
        }
    }
    assert!(!inspected.contains(&".git".to_owned()));
    let files = walk.finish();
    assert_eq!(files, [path(".gitignore"), path("nested/untracked.rs"), path("visible.txt")]);

    let mut context = repository(Vec::new());
    context.files = files;
    let prompt = Prompt::new(context, &[], &commit(Vec::new(), ""), &[], 10_000).unwrap();
    assert!(prompt.text.contains("## Working-tree layout"));
    assert!(prompt.text.contains("nested/\n  untracked.rs"));
    assert!(!prompt.text.contains("secret.txt"));
    assert!(!prompt.text.contains("ignored-directory"));
}

#[test]
fn excluded_diff_file_keeps_status_but_omits_patch_and_syntax_context() {
    let changes = vec![modified("generated.rs"), modified("kept.rs")];
    let patch = block("generated.rs", "fn generated() { old(); }", "fn generated() { secret(); }")
        + &block("kept.rs", "fn kept() { old(); }", "fn kept() { new(); }");
    let excluded = [path("generated.rs")];
    let sources = [
        ("fn generated() { old(); }\n", "fn generated() { secret(); }\n"),
        ("fn kept() { old(); }\n", "fn kept() { new(); }\n"),
    ];
    let found = changes
        .iter()
        .zip(sources)
        .map(|(change, (before, after))| {
            evidence_for_change(change, Some(after.as_bytes()), Some(before.as_bytes()), &[])
                .unwrap()
        })
        .collect::<Vec<_>>();
    let contexts = syntax_contexts(&changes, &excluded, found);
    let commit = commit(changes, &patch);

    let prompt = Prompt::new(repository(contexts), &[], &commit, &excluded, 10_000).unwrap();

    assert!(prompt.text.contains("M\tgenerated.rs"));
    assert!(prompt.text.contains("fn kept() { new(); }"));
    assert!(prompt.text.contains("### kept.rs"));
    assert!(!prompt.text.contains("secret();"));
    assert!(!prompt.text.contains("### generated.rs"));
}

#[test]
fn excluded_directories_exclude_the_files_below_them() {
    let change = modified("web/generated/types.ts");
    assert!(is_excluded(&change, &[path("web")]));
    assert!(is_excluded(&change, &[path("web/generated/")]));
    assert!(is_excluded(&change, &[path("other"), path("web/generated/types.ts")]));
    assert!(!is_excluded(&change, &[path("web/gen")]));
    assert!(!is_excluded(&change, &[path("types.ts")]));
    assert!(!is_excluded(&change, &[path("")]));
    let conflict = CommitChange {
        kind: CommitChangeKind::Unmerged { path: path("web/generated/types.ts") },
        hunks: Vec::new(),
    };
    assert!(is_excluded(&conflict, &[path("web")]));
    assert!(!is_excluded(&conflict, &[path("src")]));
}

#[test]
fn patches_are_split_at_file_headers() {
    let first = block("a", "diff --git x", "y");
    let second = block("b", "x", "y");
    let blocks = patch_blocks((first.clone() + &second).as_bytes());
    assert_eq!(blocks, [first.into_bytes(), second.into_bytes()]);
    assert!(patch_blocks(b"no header\n").is_empty());
}

#[test]
fn mismatched_patches_are_refused() {
    let commit = commit(vec![modified("a"), modified("b")], &block("a", "x", "y"));
    let error = filtered_diff(&commit, &[path("b")]).unwrap_err();
    assert_eq!(
        error.message(),
        "could not safely exclude diff paths: expected 2 file patch blocks, found 1"
    );
    assert!(filtered_diff(&commit, &[]).unwrap().contains("+y"));
}

#[test]
fn unsupported_file_has_no_syntax_context_or_prompt_section() {
    let change = modified("notes.unknown");
    assert!(evidence_for_change(&change, Some(b"after\n"), Some(b"before\n"), &[])
        .unwrap()
        .is_none());
    let patch = block("notes.unknown", "before", "after");
    let commit = commit(vec![change], &patch);
    let prompt = Prompt::new(repository(Vec::new()), &[], &commit, &[], 10_000).unwrap();
    assert!(!prompt.text.contains("## Syntax context"));
}

#[test]
fn prompts_hold_their_parts_in_order() {
    let patch = block("src/main.rs", "old", "new");
    let commit = commit(vec![modified("src/main.rs")], &patch);
    let hints = ["first hint".to_owned(), "second hint".to_owned()];
    let prompt = Prompt::new(repository(Vec::new()), &hints, &commit, &[], 10_000).unwrap();
    assert_eq!(
        prompt.text,
        format!("Suggest one commit message.\n\n## Branch\nmain\n\n## Working-tree layout\nGit-ignored entries are omitted. Paths describe repository structure, not commit membership.\n````text\nREADME.md\nsrc/\n  main.rs\n````\n\n## Recent commit subjects\ninitial\n\n## Commit changes summary\n1 file changed, 1 insertion(+), 1 deletion(-)\n\n## Files in commit\nM\tsrc/main.rs\n\n\n## Root README.md from the Git index\n````markdown\n# Project\n\n````\n\n## Author-provided context\n- first hint\n- second hint\n\n## Concrete commit diff\n```diff\n{patch}\n```\n")
    );
    assert_eq!(
        prompt.estimated_tokens,
        estimate_tokens(&format!("{}{}", Prompt::SYSTEM, prompt.text))
    );
    assert_eq!(
        prompt.context_text(),
        format!("# System message\n\n{}\n# User message\n\n{}\n", Prompt::SYSTEM, prompt.text)
    );
}

#[test]
fn prompts_over_budget_are_refused() {
    let commit = commit(vec![modified("a")], &block("a", "x", "y"));
    let PromptError::OverBudget { needed, budget } =
        Prompt::new(repository(Vec::new()), &[], &commit, &[], 100).unwrap_err()
    else {
        panic!("expected the budget to be exceeded");
    };
    assert_eq!(budget, 100);
    assert_eq!(
        PromptError::OverBudget { needed, budget }.message(),
        format!("prompt needs ~{needed} tokens; budget is 100")
    );
    assert!(Prompt::new(repository(Vec::new()), &[], &commit, &[], needed - 1).is_err());
    let smallest = Prompt::new(repository(Vec::new()), &[], &commit, &[], needed).unwrap();
    assert!(smallest.estimated_tokens <= needed);
}

#[test]
fn long_readmes_are_clipped_to_the_budget() {
    let commit = commit(vec![modified("a")], &block("a", "x", "y"));
    let mut context = repository(Vec::new());
    context.readme = Some("word ".repeat(10_000).into_bytes());
    let prompt = Prompt::new(context, &[], &commit, &[], 3_000).unwrap();
    assert!(prompt.estimated_tokens <= 3_000);
    assert!(prompt.text.contains("...[clipped for context budget]..."));
}

#[test]
fn estimates_add_up() {
    let commit = commit(vec![modified("a")], &block("a", "x", "y"));
    let estimate =
        Prompt::estimate(repository(Vec::new()), &[], &commit, &[], 4_096, 384).unwrap();
    assert_eq!(estimate.safety_margin_tokens, 512);
    assert_eq!(estimate.system_tokens, estimate_tokens(Prompt::SYSTEM));
    assert_eq!(estimate.input_tokens(), estimate.system_tokens + estimate.user_tokens);
    assert_eq!(estimate.total_tokens(), estimate.input_tokens() + 4_096 + 384 + 512);
    let plain = PromptEstimate {
        system_tokens: 1,
        user_tokens: 2,
        thinking_tokens: 3,
        generation_tokens: 4,
        safety_margin_tokens: 5,
    };
    assert_eq!(plain.total_tokens(), 15);
}

#[test]
fn context_windows_reserve_generation_and_margin() {
    assert_eq!(Prompt::available_tokens(16_384, 384).unwrap(), 15_488);
    let error = Prompt::available_tokens(896, 384).unwrap_err();
    assert_eq!(error.message(), "context 896 cannot reserve 896 tokens");
}

#[test]
fn tokens_are_estimated_upwards() {
    assert_eq!(estimate_tokens(""), 0);
    assert_eq!(estimate_tokens("a"), 1);
    assert_eq!(estimate_tokens(&"a".repeat(33)), 10);
    assert_eq!(estimate_tokens(&"a".repeat(34)), 11);
    for length in 0..4_000_usize {
        assert_eq!(
            estimate_tokens(&"a".repeat(length)),
            (length as f64 / 3.3).ceil() as usize
        );
    }
}

#[test]
fn clipped_text_ends_between_characters() {
    assert_eq!(clip_tokens("short", 2), "short");
    let text = "é".repeat(100);
    let limit = 20;
    let clipped = clip_tokens(&text, limit);
    let room = (limit as f64 * 3.3).floor() as usize - CLIP_SUFFIX.len();
    assert_eq!(clipped, format!("{}{CLIP_SUFFIX}", "é".repeat(room / 2)));
    assert!(estimate_tokens(&clipped) <= limit);
    assert_eq!(clip_tokens(&text, 1), CLIP_SUFFIX);
}

#[test]
fn readme_bytes_are_decoded() {
    assert_eq!(readme(&Some(vec![b'a', 0xff]), 100), "a\u{fffd}");
    assert_eq!(readme(&None, 100), "(no root README.md in the Git index)");
}

#[test]
fn amended_commits_are_no_evidence_for_themselves() {
    let subjects = ["newest".to_owned(), "older".to_owned()];
    assert_eq!(commit_history_text(&subjects, CommitMode::Normal), "newest\nolder");
    assert_eq!(commit_history_text(&subjects, CommitMode::Amend), "older");
    assert_eq!(commit_history_text(&subjects[..1], CommitMode::Amend), "(no commit history yet)");
    assert_eq!(history_limit(CommitMode::Normal), 12);
    assert_eq!(history_limit(CommitMode::Amend), 13);
}

#[test]
fn status_lines_name_the_changed_files() {
    assert_eq!(
        file_change_status_text(&[modified("a"), modified("b")]),
        "M\ta\nM\tb"
    );
}

#[test]
fn subjects_are_joined_on_one_line() {
    let answer = message("  Fix the  \r\n\n parser ", None);
    assert_eq!(answer.normalized_subject().unwrap(), "Fix the parser");
    let error = message(" \n\t", None).normalized_subject().unwrap_err();
    assert_eq!(error.message(), "model returned an empty subject");
}

#[test]
fn bodies_are_trimmed() {
    assert_eq!(message("a", Some("  why\n")).normalized_body().as_deref(), Some("why"));
    assert_eq!(message("a", Some(" \n")).normalized_body(), None);
    assert_eq!(message("a", None).normalized_body(), None);
}

#[test]
fn schema_lists_the_properties_of_an_answer() {
    let schema = CommitMessage::schema();
    let names = schema.properties.iter().map(|property| property.name).collect::<Vec<_>>();
    assert_eq!(
        names,
        ["intent", "key_changes", "change_kind", "confidence", "subject", "body"]
    );
    assert_eq!(
        schema.required_names(),
        ["intent", "key_changes", "change_kind", "confidence", "subject"]
    );
    assert!(!schema.additional_properties);
    assert_eq!(schema.properties[1].property_type.json_type(), "array");
    assert_eq!(schema.properties[2].property_type.json_type(), "string");
    assert_eq!(
        schema.properties[4].property_type,
        PropertyType::Text { min_length: 1, max_length: 100 }
    );
    let PropertyType::Choice { values } = &schema.properties[2].property_type else {
        panic!("expected a choice");
    };
    assert!(values.contains(&ChangeKind::BehaviorChange.name()));
    assert_eq!(values.len(), 9);
    assert!(Confidence::Low < Confidence::High);
}

#[test]
fn excluded_contents_make_no_difference() {
    let changes = || vec![modified("a"), modified("secret/key")];
    let prompt = |added: &str| {
        let patch = block("a", "x", "y") + &block("secret/key", "old", added);
        Prompt::new(
            repository(Vec::new()),
            &[],
            &commit(changes(), &patch),
            &[path("secret")],
            10_000,
        )
        .unwrap()
    };
    let first = prompt("one");
    assert!(first.text.contains("+y"));
    assert!(first.text.contains("M\tsecret/key"));
    assert!(!first.text.contains("+one"));
    assert_eq!(first.text, prompt("two").text);
}
