use git_scribe::generation::evidence::evidence_for_change;
use git_scribe::generation::{self, Prompt, RepositoryContext};
use git_scribe::git::{
    CommitChange, CommitChangeKind, CommitMode, CommitStats, DiffHunk, FileMode, FileVersion,
    LineRange, ObjectId, ProspectiveCommit,
};
use git_scribe::path::RepoPath;
use git_scribe::syntax::calls::{collect_entry_paths, CallEdge};
use git_scribe::syntax::context::{
    affected_code, changed_lines, load_side, local_affected_code,
};
use git_scribe::syntax::definitions::{resolve_callable, Definition, Span};
use git_scribe::syntax::tree::{ParsedSource, RustQuery};
use git_scribe::syntax::{
    context_for_change, AffectedCode, EntryPoint, ExternalCallSite, IndexedFile, Language,
    SyntaxContext,
};

fn affected(source: &str, ranges: &[(usize, usize)]) -> Vec<AffectedCode> {
    let ranges = ranges
        .iter()
        .map(|&(start, count)| LineRange { start, count })
        .collect::<Vec<_>>();
    local_affected_code(source.as_bytes(), &ranges).unwrap()
}

fn path(text: &str) -> RepoPath {
    RepoPath::from_text(text)
}

fn file(name: &str, source: &str) -> IndexedFile {
    IndexedFile { path: path(name), source: source.as_bytes().to_vec(), changed: Vec::new() }
}

fn version(name: &str, id: u8) -> FileVersion {
    FileVersion { path: path(name), oid: ObjectId { bytes: vec![id; 20] }, mode: FileMode::Blob }
}

fn hunk(before: Option<(usize, usize)>, after: Option<(usize, usize)>) -> DiffHunk {
    DiffHunk {
        before: before.map(|(start, count)| LineRange { start, count }),
        after: after.map(|(start, count)| LineRange { start, count }),
    }
}

fn modified(name: &str, hunks: Vec<DiffHunk>) -> CommitChange {
    CommitChange {
        kind: CommitChangeKind::Modified { before: version(name, 1), after: version(name, 2) },
        hunks,
    }
}

fn prompt(change: CommitChange, patch: &str, context: generation::SyntaxContext) -> Prompt {
    let repository = RepositoryContext {
        branch: Some("main".to_owned()),
        files: Vec::new(),
        subjects: vec!["initial".to_owned()],
        readme: None,
        syntax: vec![context],
    };
    let commit = ProspectiveCommit {
        mode: CommitMode::Normal,
        changes: vec![change],
        patch: patch.as_bytes().to_vec(),
        stats: CommitStats { files_changed: 1, insertions: 1, deletions: 1 },
    };
    Prompt::new(repository, &[], &commit, &[], 10_000).unwrap()
}

#[test]
fn finds_public_entry_point_reaching_changed_function() {
    let source = "/// Start preview rendering.\npub fn start() {\n    configure();\n}\n\nfn configure() {\n    let width = thinking_preview_columns();\n}\n\nfn thinking_preview_columns() -> usize {\n    72\n}\n";

    assert_eq!(
        affected(source, &[(12, 1)]),
        [AffectedCode {
            changed: "fn thinking_preview_columns() -> usize".to_owned(),
            public: false,
            documentation: None,
            entry_points: vec![EntryPoint {
                name: "start".to_owned(),
                documentation: Some("Start preview rendering".to_owned()),
                via: vec!["configure".to_owned()],
            }],
            external_callers: Vec::new(),
        }]
    );
}

#[test]
fn omits_changed_and_test_callers() {
    let source = "fn caller() {\n    changed();\n}\n\nfn changed() {}\n\n#[cfg(test)]\nmod tests {\n    fn checks() {\n        changed();\n    }\n}\n";

    assert!(affected(source, &[(2, 1), (5, 1)]).is_empty());
}

#[test]
fn omits_changed_functions_without_callers() {
    assert!(affected("fn changed() {\n    work();\n}\n", &[(2, 1)]).is_empty());
}

#[test]
fn reports_public_changed_callable_without_callers() {
    let source = "/// Parse the supplied input.\n#[must_use]\npub fn parse() -> String {\n    String::new()\n}\n";

    assert_eq!(
        affected(source, &[(4, 1)]),
        [AffectedCode {
            changed: "#[must_use]\npub fn parse() -> String".to_owned(),
            public: true,
            documentation: Some("Parse the supplied input".to_owned()),
            entry_points: Vec::new(),
            external_callers: Vec::new(),
        }]
    );
}

#[test]
fn follows_self_method_calls_within_the_same_implementation() {
    let source = "impl First {\n    /// Run the first implementation.\n    #[must_use]\n    pub fn run(&self) -> usize {\n        self.update()\n    }\n\n    fn update(&self) -> usize {\n        1\n    }\n}\n\nimpl Second {\n    fn update(&self) -> usize {\n        2\n    }\n}\n";

    assert_eq!(
        affected(source, &[(9, 1)]),
        [AffectedCode {
            changed: "fn update(&self) -> usize".to_owned(),
            public: false,
            documentation: None,
            entry_points: vec![EntryPoint {
                name: "First::run".to_owned(),
                documentation: Some("Run the first implementation".to_owned()),
                via: Vec::new(),
            }],
            external_callers: Vec::new(),
        }]
    );
}

#[test]
fn parses_supported_languages() {
    let cases = [
        (Language::Rust, "fn f() {}"),
        (Language::C, "void f(void) {}"),
        (Language::Cpp, "void f() {}"),
        (Language::Python, "def f():\n    pass\n"),
        (Language::Swift, "func f() {}"),
        (Language::Bash, "f() { echo hi; }\n"),
        (Language::JavaScript, "function f() {}"),
        (Language::TypeScript, "function f(): void {}"),
        (Language::Tsx, "const f = <div />;"),
        (Language::Css, ".f { background: #1166ee; }"),
        (Language::Html, "<div id=\"f\"></div>"),
        (Language::Toml, "[f]\nfoo = 42"),
        (Language::Json, "{\"f\": 42}"),
    ];

    for (language, source) in cases {
        let mut parser = tree_sitter::Parser::new();
        parser
            .set_language(&language.tree_sitter())
            .expect("failed to load Tree-sitter language");
        let tree = parser
            .parse(source, None)
            .expect("Tree-sitter failed to parse source");

        assert!(
            !tree.root_node().has_error(),
            "{language:?}: {}",
            tree.root_node().to_sexp()
        );
        println!("{:?}", tree.root_node().utf8_text(source.as_bytes()));
    }
}

#[test]
fn recursion_and_deep_private_chains_end_the_search() {
    let source = "fn a() {\n    1;\n    b();\n}\nfn b() {\n    a();\n}\nfn c() {\n    b();\n}\nfn d() {\n    c();\n}\npub fn e() {\n    d();\n}\n";
    // The chain from the changed `a` would hold five definitions before it is public.
    let source = source.replace("fn b() {\n    a();\n}", "fn b() {\n    a();\n    c();\n}");
    assert!(affected(&source, &[(2, 1)]).is_empty());
}

#[test]
fn at_most_three_entry_points_are_shown() {
    let mut source = "fn changed() {\n    1;\n}\n".to_owned();
    for name in ["one", "two", "three", "four"] {
        source.push_str(&format!("pub fn {name}() {{\n    changed();\n}}\n"));
    }
    let found = affected(&source, &[(2, 1)]);
    assert_eq!(found.len(), 1);
    let names = found[0].entry_points.iter().map(|point| point.name.as_str()).collect::<Vec<_>>();
    assert_eq!(names, ["one", "two", "three"]);
}

#[test]
fn ambiguous_names_resolve_to_nothing() {
    let source = "mod a {\n    fn helper() {}\n}\nfn helper() {\n    1;\n}\npub fn run() {\n    helper();\n}\n";
    assert!(affected(source, &[(5, 1)]).is_empty());
}

#[test]
fn callers_in_other_files_are_listed_at_most_three_times() {
    let changed = "pub struct Client;\nimpl Client {\n    fn connect() {\n        1;\n    }\n}\nfn helper() {\n    2;\n}\n";
    let other = "fn one() {\n    helper();\n}\nfn two() {\n    Client::connect();\n    helper();\n    helper();\n    helper();\n}\n#[test]\nfn checked() {\n    helper();\n}\n";
    let files = vec![
        file("src/changed.rs", "fn ignored() {\n    helper();\n}\n"),
        file("src/other.rs", other),
        file("notes.txt", "helper();\n"),
    ];
    let ranges = [LineRange { start: 4, count: 1 }, LineRange { start: 8, count: 1 }];
    let found =
        affected_code(&path("src/changed.rs"), changed.as_bytes(), &ranges, &files).unwrap();

    let site = |caller: &str, call: &str| ExternalCallSite {
        path: path("src/other.rs"),
        caller: caller.to_owned(),
        call: call.to_owned(),
    };
    assert_eq!(found.len(), 2);
    assert_eq!(found[0].changed, "fn connect()");
    assert_eq!(found[0].external_callers, [site("two", "Client::connect();")]);
    assert_eq!(found[1].changed, "fn helper()");
    assert_eq!(
        found[1].external_callers,
        [site("one", "helper();"), site("two", "helper();"), site("two", "helper();")]
    );
}

#[test]
fn context_prefers_the_side_after_the_change() {
    let change = modified("source.rs", vec![hunk(Some((1, 1)), Some((1, 1)))]);
    let after = "pub fn after() {}\n";
    let before = "pub fn before() {}\n";
    let context = context_for_change(
        &change,
        Some(after.as_bytes()),
        Some(before.as_bytes()),
        &[],
    )
    .unwrap();
    let expected = |declaration: &str| SyntaxContext {
        path: path("source.rs"),
        affected: vec![AffectedCode {
            changed: declaration.to_owned(),
            public: true,
            documentation: None,
            entry_points: Vec::new(),
            external_callers: Vec::new(),
        }],
    };
    assert_eq!(context, Some(expected("pub fn after()")));

    let removed = modified("source.rs", vec![hunk(Some((1, 1)), None)]);
    let context = context_for_change(
        &removed,
        Some(after.as_bytes()),
        Some(before.as_bytes()),
        &[],
    )
    .unwrap();
    assert_eq!(context, Some(expected("pub fn before()")));
}

#[test]
fn links_and_changes_without_lines_are_not_read() {
    let hunks = [hunk(None, Some((3, 2)))];
    let mut linked = version("source.rs", 1);
    linked.mode = FileMode::Link;
    assert_eq!(load_side(Some(&linked), &hunks, true), None);
    assert_eq!(load_side(Some(&version("source.rs", 1)), &hunks, false), None);
    assert_eq!(load_side(None, &hunks, true), None);
    assert_eq!(
        load_side(Some(&version("source.rs", 1)), &hunks, true),
        Some(vec![LineRange { start: 3, count: 2 }])
    );
}

#[test]
fn syntax_context_consumes_owned_change_data() {
    let change = modified("source.rs", vec![hunk(Some((2, 1)), Some((2, 1)))]);
    let context = evidence_for_change(
        &change,
        Some(b"fn changed() {\n    let value = 2;\n}\n".as_slice()),
        Some(b"fn changed() {\n    let value = 1;\n}\n".as_slice()),
        &[],
    )
    .unwrap()
    .expect("Rust modification should have syntax context");
    let before = context.before.as_ref().expect("before side");
    let after = context.after.as_ref().expect("after side");
    assert_eq!(before.entries.len(), 1);
    assert_eq!(after.entries.len(), 1);
    assert_eq!(after.entries[0].items[0].declaration, "fn changed()");

    let prompt = prompt(change, "-    let value = 1;\n+    let value = 2;\n", context);
    assert!(prompt.text.contains("## Syntax context"));
    assert!(prompt.text.contains("### source.rs"));
    assert!(prompt.text.contains("CONTEXT:\nfn changed()"));
    assert!(!prompt.text.contains("BEFORE:\nfn changed()"));
    assert!(!prompt.text.contains("AFTER:\nfn changed()"));
}

#[test]
fn added_function_has_after_syntax_context_only() {
    let change = CommitChange {
        kind: CommitChangeKind::Added { after: version("added.rs", 2) },
        hunks: vec![hunk(None, Some((1, 3)))],
    };
    let context = evidence_for_change(
        &change,
        Some(b"pub fn added() {\n    work();\n}\n".as_slice()),
        None,
        &[],
    )
    .unwrap()
    .expect("added Rust function should have syntax context");
    assert!(context.before.is_none());
    let after = context.after.as_ref().expect("after side");
    assert_eq!(after.path, path("added.rs"));
    assert_eq!(after.entries.len(), 1);
    assert_eq!(after.entries[0].items[0].declaration, "pub fn added()");
}

#[test]
fn deleted_function_has_before_syntax_context_only() {
    let change = CommitChange {
        kind: CommitChangeKind::Deleted { before: version("deleted.rs", 1) },
        hunks: vec![hunk(Some((1, 3)), None)],
    };
    let context = evidence_for_change(
        &change,
        None,
        Some(b"fn deleted() {\n    work();\n}\n".as_slice()),
        &[],
    )
    .unwrap()
    .expect("deleted Rust function should have syntax context");
    let before = context.before.as_ref().expect("before side");
    assert!(context.after.is_none());
    assert_eq!(before.path, path("deleted.rs"));
    assert_eq!(before.entries.len(), 1);
    assert_eq!(before.entries[0].items[0].declaration, "fn deleted()");
}

#[test]
fn rename_with_edit_uses_both_paths_and_blobs_for_syntax() {
    let before = "fn process() {\n    step_1();\n    step_2();\n    step_3();\n    step_4();\n    step_5();\n    step_6();\n}\n";
    let after = before.replace("step_4();", "changed_step();");
    let change = CommitChange {
        kind: CommitChangeKind::Renamed {
            before: version("old.rs", 1),
            after: version("new.rs", 2),
        },
        hunks: vec![hunk(Some((5, 1)), Some((5, 1)))],
    };
    let context =
        evidence_for_change(&change, Some(after.as_bytes()), Some(before.as_bytes()), &[])
            .unwrap()
            .expect("edited Rust rename should have syntax context");
    let before = context.before.as_ref().expect("before side");
    let after = context.after.as_ref().expect("after side");
    assert_eq!(before.path, path("old.rs"));
    assert_eq!(after.path, path("new.rs"));
    assert_eq!(before.entries[0].items[0].declaration, "fn process()");
    assert_eq!(after.entries[0].items[0].declaration, "fn process()");
    let prompt = prompt(change, "-    step_4();\n+    changed_step();\n", context);
    assert!(prompt.text.contains("### old.rs -> new.rs"));
}

#[test]
fn syntax_context_preserves_different_before_and_after_structure() {
    let change = modified("scope.rs", vec![hunk(Some((1, 1)), Some((1, 2)))]);
    let context = evidence_for_change(
        &change,
        Some(b"#[test]\nfn changed_test() {\n    changed();\n}\n".as_slice()),
        Some(b"fn production() {\n    changed();\n}\n".as_slice()),
        &[],
    )
    .unwrap()
    .expect("scope change should have syntax context");
    let before = context.before.as_ref().expect("before side");
    let after = context.after.as_ref().expect("after side");
    assert_eq!(before.entries[0].items[0].declaration, "fn production()");
    assert_eq!(after.entries[0].items[0].declaration, "#[test]\nfn changed_test()");
    let prompt =
        prompt(change, "-fn production() {\n+#[test]\n+fn changed_test() {\n", context);
    assert!(prompt.text.contains("BEFORE:\nfn production()"));
    assert!(prompt.text.contains("AFTER:\n#[test]\nfn changed_test()"));
}

#[test]
fn enclosing_definitions_come_first() {
    let change = modified("nested.rs", vec![hunk(None, Some((3, 1)))]);
    let context = evidence_for_change(
        &change,
        Some(b"mod outer {\n    fn inner() {\n        work();\n    }\n}\n".as_slice()),
        None,
        &[file("user.rs", "fn uses() {\n    inner();\n}\n")],
    )
    .unwrap()
    .unwrap();
    let after = context.after.unwrap();
    let declarations = after.entries[0]
        .items
        .iter()
        .map(|item| (item.declaration.as_str(), item.start_line))
        .collect::<Vec<_>>();
    assert_eq!(declarations, [("mod outer", 1), ("fn inner()", 2)]);
    assert_eq!(after.call_sites.len(), 1);
    assert_eq!(after.call_sites[0].caller.items[0].declaration, "uses");
    assert_eq!(after.call_sites[0].call, "inner();");
}

#[test]
fn languages_are_detected_by_extension_before_interpreter() {
    assert_eq!(Language::detect(&path("src/main.rs"), b"#!/bin/sh\n"), Some(Language::Rust));
    assert_eq!(Language::detect(&path("run"), b"#!/usr/bin/env python3\n"), Some(Language::Python));
    assert_eq!(Language::detect(&path("run"), b"#!/bin/bash\n"), Some(Language::Bash));
    assert_eq!(Language::detect(&path("notes.unknown"), b"plain\n"), None);
    assert_eq!(Language::from_extension("tsx"), Some(Language::Tsx));
    assert_eq!(Language::Rust.fence_name(), "rust");
}

#[test]
fn parsed_nodes_and_matches_describe_the_source() {
    let source = b"fn f() {\n    g();\n}\n";
    let parsed = ParsedSource::parse(source).unwrap();
    let syntax = parsed.syntax();
    assert_eq!(syntax.node(0).kind, "source_file");
    assert_eq!(syntax.node(0).end_byte, source.len());
    let function = (0..syntax.len()).find(|&at| syntax.node(at).kind == "function_item").unwrap();
    assert_eq!(syntax.parent(function), Some(0));
    let name = syntax.field_child(function, "name").unwrap();
    assert_eq!(syntax.text_of(source, name).as_deref(), Some("f"));
    let calls = parsed.matches(source, RustQuery::Calls).unwrap();
    assert_eq!(calls.len(), 1);
    let names = calls[0].iter().map(|capture| capture.name.as_str()).collect::<Vec<_>>();
    assert_eq!(names, ["call", "function"]);
    let tags = parsed.matches(source, RustQuery::Tags).unwrap();
    assert!(tags.iter().any(|found| found.iter().any(|tag| tag.name == "definition.function")));
}

#[test]
fn entry_paths_stop_at_the_first_public_caller() {
    let definition = |start: usize, name: &str, public: bool| Definition {
        span: Span { start, end: start + 10 },
        name: name.to_owned(),
        label: name.to_owned(),
        declaration: format!("fn {name}()"),
        start_row: 0,
        end_row: 0,
        callable: true,
        public,
        documentation: None,
        impl_type: None,
    };
    let definitions =
        [definition(0, "a", false), definition(20, "b", true), definition(40, "c", true)];
    let span = |start: usize| Span { start, end: start + 10 };
    let edges = [
        CallEdge { target: span(0), caller: span(20), at: 25 },
        CallEdge { target: span(20), caller: span(40), at: 45 },
    ];
    let mut trail = vec![span(0)];
    let mut found = Vec::new();
    collect_entry_paths(&definitions, &edges, &mut trail, &mut found);
    assert_eq!(found, [vec![span(0), span(20)]]);
    assert_eq!(trail, [span(0)]);
    assert_eq!(resolve_callable(&definitions, &None, "b"), Some(span(20)));
    assert_eq!(resolve_callable(&definitions, &Some("T".to_owned()), "b"), None);
}

#[test]
fn private_callables_are_shown_without_documentation() {
    let source = "pub fn start() {\n    work();\n}\n\n/// Work hard.\nfn work() {\n    let _ = 1;\n}\n";
    let found = affected(source, &[(7, 1)]);
    assert_eq!(found.len(), 1);
    assert_eq!(found[0].changed, "fn work()");
    assert_eq!(found[0].documentation, None);
    assert_eq!(found[0].entry_points[0].name, "start");
}

#[test]
fn changed_callers_in_other_files_are_left_out() {
    let other = "fn one() {\n    helper();\n}\nfn two() {\n    2;\n    helper();\n}\nfn three() {\n    helper();\n}\n";
    let changes = [
        modified("src/other.rs", vec![hunk(None, Some((2, 1))), hunk(Some((5, 1)), Some((5, 1)))]),
        modified("src/unrelated.rs", vec![hunk(None, Some((9, 1)))]),
    ];
    let mut indexed = file("src/other.rs", other);
    indexed.changed = changed_lines(&changes, &path("src/other.rs"));
    assert_eq!(
        indexed.changed,
        [LineRange { start: 2, count: 1 }, LineRange { start: 5, count: 1 }]
    );
    let found = affected_code(
        &path("src/changed.rs"),
        b"fn helper() {\n    1;\n}\n",
        &[LineRange { start: 2, count: 1 }],
        &[indexed],
    )
    .unwrap();
    assert_eq!(found.len(), 1);
    let callers = found[0].external_callers.iter().map(|site| site.caller.as_str());
    assert_eq!(callers.collect::<Vec<_>>(), ["three"]);
}
