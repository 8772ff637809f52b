use git_scribe::cli::Think;
use git_scribe::generation::{ChangeKind, CommitMessage, Confidence, Prompt, RepositoryContext};
use git_scribe::git::change::{CommitChange, CommitChangeKind, FileMode, FileVersion, ObjectId};
use git_scribe::git::{CommitMode, CommitStats, ProspectiveCommit};
use git_scribe::ollama::{ChatResponse, ResponseMessage, Role, RunningModel};
use git_scribe::path::RepoPath;
use git_scribe::run::{Run, RunAction, RunError, RunEvent, RunOptions, Step};
use git_scribe::session::{Delivery, OutputFile, OutputPath, OutputPathError};
use git_scribe::terminal::Terminal;

fn options(terminal: Terminal) -> RunOptions {
    RunOptions {
        amend: false,
        think: Think::Off,
        context_window: 16_384,
        prompt_file: None,
        stream_file: None,
        hints: vec!["Keep it short".to_owned()],
        exclude_diff: Vec::new(),
        model: "tiny".to_owned(),
        show_analysis: false,
        no_body: false,
        print: true,
        terminal,
    }
}

fn quiet() -> Terminal {
    Terminal::new(false, false, false).with_progress(false)
}

fn plain() -> Terminal {
    Terminal::new(false, false, false)
}

fn file(path: &str, state: OutputPath) -> Option<OutputFile> {
    Some(OutputFile { path: RepoPath::from_text(path), state })
}

fn commit(changes: usize) -> ProspectiveCommit {
    ProspectiveCommit {
        mode: CommitMode::Normal,
        changes: (0..changes)
            .map(|_| CommitChange {
                kind: CommitChangeKind::Added {
                    after: FileVersion {
                        path: RepoPath::from_text("a.txt"),
                        oid: ObjectId { bytes: vec![1; 20] },
                        mode: FileMode::Blob,
                    },
                },
                hunks: Vec::new(),
            })
            .collect(),
        patch: b"diff --git a/a.txt b/a.txt\n+one\n".to_vec(),
        stats: CommitStats { files_changed: changes, insertions: 1, deletions: 0 },
    }
}

fn context() -> RepositoryContext {
    RepositoryContext {
        branch: Some("main".to_owned()),
        files: vec![RepoPath::from_text("a.txt")],
        subjects: vec!["Start".to_owned()],
        readme: None,
        syntax: Vec::new(),
    }
}

fn response(content: &str, reason: &str) -> ChatResponse {
    ChatResponse {
        message: ResponseMessage {
            content: content.to_owned(),
            thinking: Some("Hm".to_owned()),
        },
        done_reason: Some(reason.to_owned()),
        prompt_eval_count: None,
        eval_count: Some(3),
    }
}

fn answer(subject: &str) -> CommitMessage {
    CommitMessage {
        intent: "Add a file".to_owned(),
        key_changes: Vec::new(),
        change_kind: ChangeKind::Feature,
        confidence: Confidence::Low,
        subject: subject.to_owned(),
        body: Some("Because.".to_owned()),
    }
}

fn after(run: Run, events: Vec<RunEvent>) -> (Run, Step) {
    let mut last = None;
    let mut run = run;
    for event in events {
        let (next, step) = run.step(event, "12:00:00");
        run = next;
        last = Some(step);
    }
    (run, last.unwrap())
}

fn running(context_length: u32) -> Vec<RunningModel> {
    vec![RunningModel {
        model: "tiny:latest".to_owned(),
        size: 1,
        expires_at: String::new(),
        size_vram: 1,
        context_length,
    }]
}

fn up_to_the_answer() -> Vec<RunEvent> {
    vec![
        RunEvent::Start,
        RunEvent::CommitRead(commit(1)),
        RunEvent::ContextRead(context()),
        RunEvent::ModelsListed(running(16_384)),
        RunEvent::Answered(response(" {\"subject\":1} ", "stop")),
    ]
}

#[test]
fn a_run_asks_a_running_model_and_prints() {
    let (run, step) = after(Run::new(options(plain())), vec![RunEvent::Start]);
    assert!(matches!(step.action, RunAction::ReadCommit { mode: CommitMode::Normal }));
    let (run, step) = run.step(RunEvent::CommitRead(commit(1)), "12:00:00");
    assert!(matches!(step.action, RunAction::ReadContext));
    assert_eq!(run.commit().unwrap().changes().len(), 1);
    let (run, step) = run.step(RunEvent::ContextRead(context()), "12:00:00");
    assert!(matches!(step.action, RunAction::ListModels));
    assert!(step.output.contains("1 file(s) in commit; line changes: +1 -0\n"));
    assert!(step.output.contains("Estimated input budget: "));
    let (run, step) = run.step(RunEvent::ModelsListed(running(16_384)), "12:00:00");
    let RunAction::Chat { messages, num_predict } = step.action else {
        panic!("expected a request");
    };
    assert_eq!(num_predict, Some(384));
    assert_eq!(messages.len(), 2);
    assert_eq!((messages[0].role, messages[0].content.as_str()), (Role::System, Prompt::SYSTEM));
    assert_eq!(messages[1].role, Role::User);
    assert!(messages[1].content.contains("Keep it short"));
    let (run, step) = run.step(RunEvent::Answered(response(" {} \n", "length")), "12:00:00");
    assert!(matches!(step.action, RunAction::Decode { content } if content == "{}"));
    assert!(step.output.contains("Model output hit the token limit"));
    let (_, step) = run.step(RunEvent::Decoded(answer("Add a\nfile")), "12:00:00");
    assert!(step.output.contains("Model reports low confidence (Feature): Add a file"));
    assert!(!step.output.contains("Opening the Git commit editor"));
    let RunAction::Deliver(Delivery::Print { message }) = step.action else {
        panic!("expected a printed message");
    };
    assert_eq!(message, "Add a file\n\nBecause.");
}

#[test]
fn a_run_loads_the_model_and_opens_the_editor() {
    let run = Run::new(RunOptions {
        print: false,
        no_body: true,
        show_analysis: true,
        ..options(plain())
    });
    let (run, step) = after(
        run,
        vec![
            RunEvent::Start,
            RunEvent::CommitRead(commit(1)),
            RunEvent::ContextRead(context()),
            RunEvent::ModelsListed(running(4_096)),
        ],
    );
    assert!(matches!(step.action, RunAction::LoadModel { num_predict: Some(384) }));
    assert!(step.output.contains("Loading tiny with a 16384 token context..."));
    let (run, step) = run.step(RunEvent::ModelLoaded(Some("stop".to_owned())), "12:00:00");
    assert!(matches!(step.action, RunAction::Chat { .. }));
    assert!(step.output.contains("Unexpected done reason: stop"));
    let (_, step) = after(
        run,
        vec![
            RunEvent::Answered(response("{}", "stop")),
            RunEvent::Decoded(answer("Add a file")),
        ],
    );
    assert!(step.output.contains("  intent: Add a file\n"));
    assert!(step.output.contains("Opening the Git commit editor\n"));
    let RunAction::Deliver(Delivery::Edit { arguments }) = step.action else {
        panic!("expected the editor");
    };
    assert_eq!(arguments, ["commit", "--edit", "--message", "Add a file"]);
}

#[test]
fn a_run_writes_its_files() {
    let run = Run::new(RunOptions {
        prompt_file: file("prompt.md", OutputPath::Free),
        stream_file: file("stream.md", OutputPath::Free),
        ..options(plain())
    });
    let (run, step) = after(
        run,
        vec![
            RunEvent::Start,
            RunEvent::CommitRead(commit(1)),
            RunEvent::ContextRead(context()),
        ],
    );
    let RunAction::WritePrompt { contents } = step.action else {
        panic!("expected the prompt file");
    };
    assert!(contents.starts_with("# System message\n\n"));
    let (run, step) = run.step(RunEvent::FileWritten, "12:00:00");
    assert!(matches!(step.action, RunAction::ListModels));
    assert!(step.output.contains("Wrote model context to: prompt.md\n"));
    let (run, step) = after(
        run,
        vec![
            RunEvent::ModelsListed(running(16_384)),
            RunEvent::Answered(response("{}", "stop")),
        ],
    );
    let RunAction::WriteStream { contents } = step.action else {
        panic!("expected the stream file");
    };
    assert_eq!(contents, "# Thinking\nHm\n\n# Generation\n{}");
    let (_, step) = run.step(RunEvent::FileWritten, "12:00:00");
    assert!(matches!(step.action, RunAction::Decode { .. }));
    assert!(step.output.contains("Wrote model streams to: stream.md\n"));
}

#[test]
fn runs_fail_before_the_model_is_asked() {
    let run = Run::new(RunOptions {
        stream_file: file("Cargo.toml", OutputPath::Taken),
        ..options(quiet())
    });
    let (run, step) = run.step(RunEvent::Start, "");
    let RunAction::Fail(RunError::Output(error)) = step.action else {
        panic!("expected an error");
    };
    assert_eq!(error, OutputPathError::Exists { path: RepoPath::from_text("Cargo.toml") });
    let (_, step) = run.step(RunEvent::CommitRead(commit(1)), "");
    assert!(matches!(step.action, RunAction::Wait));

    let run = Run::new(RunOptions { context_window: 512, ..options(quiet()) });
    let (_, step) = run.step(RunEvent::Start, "");
    assert!(matches!(step.action, RunAction::Fail(RunError::Window(_))));

    let (_, step) = after(
        Run::new(options(quiet())),
        vec![RunEvent::Start, RunEvent::CommitRead(commit(0))],
    );
    let RunAction::Fail(error) = step.action else {
        panic!("expected an error");
    };
    assert_eq!(error.message(), "no staged changes");

    let run = Run::new(RunOptions { context_window: 1_000, ..options(quiet()) });
    let (_, step) = after(
        run,
        vec![
            RunEvent::Start,
            RunEvent::CommitRead(commit(1)),
            RunEvent::ContextRead(context()),
        ],
    );
    assert!(matches!(step.action, RunAction::Fail(RunError::Prompt(_))));
}

#[test]
fn runs_fail_on_responses_without_an_answer() {
    let mut events = up_to_the_answer();
    events.pop();
    events.push(RunEvent::Answered(response(" \n", "stop")));
    let (_, step) = after(Run::new(options(quiet())), events);
    let RunAction::Fail(error) = step.action else {
        panic!("expected an error");
    };
    assert_eq!(
        error.message(),
        "model returned an empty response (generated 3 tokens, thinking: 2 bytes)"
    );

    let mut events = up_to_the_answer();
    events.push(RunEvent::NotDecoded);
    let (_, step) = after(Run::new(options(quiet())), events);
    assert_eq!(step.printed.as_deref(), Some("{\"subject\":1}"));
    let RunAction::Fail(error) = step.action else {
        panic!("expected an error");
    };
    assert_eq!(error.message(), "model returned invalid commit-message JSON");

    let mut events = up_to_the_answer();
    events.push(RunEvent::Decoded(answer(" ")));
    let (_, step) = after(Run::new(options(quiet())), events);
    let RunAction::Fail(error) = step.action else {
        panic!("expected an error");
    };
    assert_eq!(error.message(), "model returned an empty subject");
}

#[test]
fn events_out_of_turn_change_nothing() {
    let (run, step) = Run::new(options(plain())).step(RunEvent::FileWritten, "12:00:00");
    assert!(matches!(step.action, RunAction::Wait));
    assert!(step.output.is_empty());
    let (_, step) = run.step(RunEvent::Start, "12:00:00");
    assert!(matches!(step.action, RunAction::ReadCommit { .. }));
}

#[test]
fn quiet_runs_write_no_diagnostics() {
    let mut run = Run::new(RunOptions { show_analysis: true, ..options(quiet()) });
    let mut events = up_to_the_answer();
    events.push(RunEvent::Decoded(answer("Add a file")));
    for event in events {
        let (next, step) = run.step(event, "12:00:00");
        run = next;
        assert!(step.output.is_empty());
    }
}
