use git_scribe::cli::{
    commit_mode, is_valid_temperature, parse_integer, parse_token_count, Configured,
    ConfiguredNumber, IntegerError, LocalConfig, Settings, Think,
};
use git_scribe::duration::{parse_duration, TOO_LONG};
use git_scribe::generation::{ChangeKind, CommitMessage, Confidence, Prompt};
use git_scribe::git::{CommitMode, CommitStats, ProspectiveCommit};
use git_scribe::ollama::client::resolve_model_not_found;
use git_scribe::ollama::{
    is_model_contained, normalize_model_name, ChatChunk, ChatEvent, ChatResponse, Model,
    OllamaError, ResponseMessage, Role, RunningModel, StreamedMessage,
};
use git_scribe::number::parse_number;
use git_scribe::path::RepoPath;
use git_scribe::session::{
    analysis_lines, answer_content, budget_output, commit_message, confidence_warning, delivery,
    done_warning, ensure_changes, ensure_output_paths_are_available, load_warning, loading_output,
    messages, plan, salvaged, stats_output, stream_text, Delivery, OutputFile, OutputPath,
};
use git_scribe::terminal::progress::format_elapsed;
use git_scribe::terminal::{Elapsed, Terminal};

fn path(text: &str) -> RepoPath {
    RepoPath::from_text(text)
}

fn settings(exclude_diff: Vec<RepoPath>) -> Settings {
    Settings {
        think: Think::Off,
        show_thinking: false,
        temperature: 0.0f32.to_bits(),
        seed: None,
        keep_alive: None,
        timeout: Elapsed::from_secs(600),
        exclude_diff,
    }
}

fn text(value: &str) -> Configured {
    Configured { given: false, value: Some(value.to_owned()) }
}

fn number(value: &str) -> ConfiguredNumber {
    ConfiguredNumber {
        configured: text(value),
        read: value.parse::<f32>().map(f32::to_bits).map_err(|error| error.to_string()),
    }
}

fn config() -> LocalConfig {
    LocalConfig {
        think: text("high"),
        show_thinking: text("true"),
        temperature: number("0.25"),
        seed: text("42"),
        keep_alive: text("1h"),
        timeout: text("30s"),
        exclude_diff: vec![b"generated.css".to_vec(), b"vendor/app.js".to_vec()],
    }
}

fn running(model: &str, context_length: u32) -> RunningModel {
    RunningModel {
        model: model.to_owned(),
        size: 1,
        expires_at: String::new(),
        size_vram: 1,
        context_length,
    }
}

fn model(name: &str) -> Model {
    Model { model: name.to_owned(), remote_host: None, size: 1 }
}

fn response(content: &str, thinking: Option<&str>, eval_count: Option<u64>) -> ChatResponse {
    ChatResponse {
        message: ResponseMessage {
            content: content.to_owned(),
            thinking: thinking.map(str::to_owned),
        },
        done_reason: Some("stop".to_owned()),
        prompt_eval_count: None,
        eval_count,
    }
}

fn answer(confidence: Confidence) -> CommitMessage {
    CommitMessage {
        intent: "Fix parsing".to_owned(),
        key_changes: vec!["one".to_owned(), "two".to_owned()],
        change_kind: ChangeKind::BugFix,
        confidence,
        subject: " Fix\nparser ".to_owned(),
        body: Some("\nBecause.\n".to_owned()),
    }
}

fn plain() -> Terminal {
    Terminal { color: false, interactive: false, progress: true, timestamp: false }
}

#[test]
fn context_window_accepts_binary_suffixes() {
    assert_eq!(parse_token_count("64k"), Ok(65_536));
    assert_eq!(parse_token_count("2m"), Ok(2_097_152));
    assert!(parse_token_count("0").is_err());
    assert_eq!(parse_token_count("16_384"), Ok(16_384));
    assert_eq!(parse_token_count("1K"), Ok(1_024));
    assert_eq!(parse_token_count("+1M"), Ok(1_048_576));
}

#[test]
fn malformed_token_counts_are_explained() {
    let message = |value: &str| parse_token_count(value).unwrap_err().message();
    assert_eq!(message("x_k"), "expected a positive token count such as `64k`, got `xk`");
    assert_eq!(message("4096m"), "token count `4096m` exceeds the supported range");
    assert_eq!(message("0k"), "token count must be positive");
    assert_eq!(message(""), "expected a positive token count such as `64k`, got ``");
    assert_eq!(message("4294967296"), "expected a positive token count such as `64k`, got `4294967296`");
}

#[test]
fn local_git_config_supplies_defaults_but_the_command_line_wins() {
    let cli = settings(Vec::new()).apply_local_config(config()).unwrap();
    assert_eq!(cli.think, Think::High);
    assert!(cli.show_thinking);
    assert!((f32::from_bits(cli.temperature) - 0.25).abs() < f32::EPSILON);
    assert_eq!(cli.seed, Some(42));
    assert_eq!(format_elapsed(cli.keep_alive.unwrap()), "60m 0s");
    assert_eq!(format_elapsed(cli.timeout), "30s");
    assert_eq!(cli.exclude_diff, [path("generated.css"), path("vendor/app.js")]);

    let mut given = settings(vec![path("manual.css"), path("generated/types.ts")]);
    given.think = Think::Low;
    given.temperature = 0.5f32.to_bits();
    given.timeout = Elapsed::from_secs(60);
    let mut config = config();
    config.think.given = true;
    config.temperature.configured.given = true;
    config.timeout.given = true;
    let cli = given.apply_local_config(config).unwrap();
    assert_eq!(cli.think, Think::Low);
    assert!((f32::from_bits(cli.temperature) - 0.5).abs() < f32::EPSILON);
    assert_eq!(format_elapsed(cli.timeout), "1m 0s");
    assert_eq!(
        cli.exclude_diff,
        [
            path("generated.css"),
            path("vendor/app.js"),
            path("manual.css"),
            path("generated/types.ts"),
        ]
    );
}

#[test]
fn malformed_configuration_is_explained() {
    let refused = |config: LocalConfig| {
        let error = settings(Vec::new()).apply_local_config(config).unwrap_err();
        (error.context, error.cause)
    };
    let mut wrong = config();
    wrong.think = text("loud");
    assert_eq!(
        refused(wrong),
        (
            "invalid git-scribe.think value `loud`".to_owned(),
            Some("invalid variant: loud".to_owned())
        )
    );
    let mut wrong = config();
    wrong.show_thinking = text("yes");
    assert_eq!(
        refused(wrong),
        (
            "invalid git-scribe.showthinking value `yes`".to_owned(),
            "yes".parse::<bool>().map_err(|error| error.to_string()).err()
        )
    );
    let mut wrong = config();
    wrong.temperature = number("warm");
    assert_eq!(refused(wrong).0, "invalid git-scribe.temperature value `warm`");
    let mut wrong = config();
    wrong.seed = text("1x");
    assert_eq!(
        refused(wrong).1,
        Some("1x".parse::<i64>().unwrap_err().to_string())
    );
    let mut wrong = config();
    wrong.keep_alive = text("soon");
    assert_eq!(
        refused(wrong).1,
        Some(humantime::parse_duration("soon").unwrap_err().to_string())
    );
    let mut wrong = config();
    wrong.timeout = text("1");
    assert_eq!(refused(wrong).0, "invalid git-scribe.timeout value `1`");
    let mut wrong = config();
    wrong.exclude_diff = vec![b"ok".to_vec(), Vec::new(), vec![0xff]];
    assert_eq!(
        refused(wrong),
        ("invalid git-scribe.excludeDiff value: path must not be empty".to_owned(), None)
    );
    let mut wrong = config();
    wrong.exclude_diff = vec![vec![0xff]];
    assert_eq!(
        refused(wrong),
        ("invalid non-UTF-8 git-scribe.excludeDiff value".to_owned(), None)
    );
}

#[test]
fn thinking_levels_are_read_whatever_their_case() {
    assert_eq!(Think::from_name("HIGH"), Some(Think::High));
    assert_eq!(Think::from_name("on"), Some(Think::On));
    assert_eq!(Think::from_name("maybe"), None);
    assert!(Think::Low.is_on());
    assert!(!Think::Off.is_on());
    assert_eq!(Think::from_name(Think::Off.name()), Some(Think::Off));
}

#[test]
fn integers_are_read_as_std_reads_them() {
    for value in [
        "", "+", "-", "0", "-0", "+7", "42", "-42", "9223372036854775807", "9223372036854775808",
        "-9223372036854775808", "-9223372036854775809", "12a", "a", "1 ", "99999999999999999999x",
        "x99999999999999999999", "--1", "0000000000000000000000001",
    ] {
        let expected = value.parse::<i64>();
        match parse_integer(value) {
            Ok(found) => assert_eq!(Ok(found), expected, "{value}"),
            Err(error) => {
                assert_eq!(error.message(), expected.unwrap_err().to_string(), "{value}");
            }
        }
    }
    assert_eq!(parse_integer(""), Err(IntegerError::Empty));
}

#[test]
fn durations_are_read_as_humantime_reads_them() {
    let many = "1s ".repeat(51);
    let years = "1y ".repeat(100);
    for value in [
        "0",
        "2h 37min",
        "30s",
        " 1 0 s",
        "1h 30m 15s 500ms 250us 125ns",
        "10000000000s 1s",
        "1.00000000000s",
        "4.2s 0.5h 1.25d3µs",
        "1.5M 2wks 1.2 5y",
        "18446744073709551614s 999ms 1000ms",
        "18446744073709551615s 999999999ns",
        "123456789012345ns",
        many.as_str(),
        years.as_str(),
    ] {
        let expected = humantime::parse_duration(value).unwrap();
        let read = parse_duration(value).unwrap();
        assert_eq!(
            (read.as_secs(), read.subsec_nanos()),
            (expected.as_secs(), expected.subsec_nanos()),
            "{value}"
        );
    }
    for value in [
        "",
        "10nights",
        "1",
        "99999999999999999999s",
        "1s x",
        "1.s",
        "1.5ns",
        "0.00000000000000000001s",
        "0.33333h",
    ] {
        let expected = humantime::parse_duration(value).unwrap_err().to_string();
        assert_eq!(parse_duration(value).unwrap_err(), expected, "{value}");
    }
    for value in [
        "18446744073 709551615s 1000ms",
        "1844674407 3709551615s 1000ms",
        "18446744073709551615s 999999999ns 1ns",
        "18446744073709551615s 1s",
        "584542046090y 1y",
    ] {
        assert_eq!(parse_duration(value).unwrap_err(), TOO_LONG, "{value}");
    }
}

#[test]
fn temperatures_are_finite_and_non_negative() {
    for value in [0.0f32, -0.0, 0.7, f32::MAX, f32::MIN_POSITIVE] {
        assert!(is_valid_temperature(value.to_bits()), "{value}");
    }
    for value in [-0.1f32, f32::INFINITY, f32::NEG_INFINITY, f32::NAN, -f32::NAN, f32::MIN] {
        assert!(!is_valid_temperature(value.to_bits()), "{value}");
    }
    assert_eq!(commit_mode(true), CommitMode::Amend);
    assert_eq!(commit_mode(false), CommitMode::Normal);
}

#[test]
fn latest_is_the_default_tag() {
    assert_eq!(normalize_model_name("qwen:latest"), "qwen");
    assert_eq!(normalize_model_name("qwen:9b"), "qwen:9b");
    let models = [running("qwen", 4_096), running("other:latest", 8_192)];
    assert!(is_model_contained("qwen:latest", 4_096, &models));
    assert!(is_model_contained("other", 8_192, &models));
    assert!(!is_model_contained("qwen", 8_192, &models));
    assert!(model("qwen").is_local());
    let remote = Model { remote_host: Some("host".to_owned()), ..model("qwen") };
    assert!(!remote.is_local());
}

#[test]
fn missing_models_are_explained() {
    let original = OllamaError::from_refusal("404 Not Found", Some("no model"), b"");
    assert_eq!(original.message(), "Ollama returned HTTP 404 Not Found: no model");
    let found = resolve_model_not_found("qwen", original.clone(), Some(vec![model("a"), model("b\"")]));
    assert_eq!(
        found.message(),
        "model `qwen` not found; available models: [\"a\", \"b\\\"\"]"
    );
    let kept = resolve_model_not_found("qwen", original.clone(), Some(vec![model("qwen:latest")]));
    assert_eq!(kept, original);
    assert_eq!(resolve_model_not_found("qwen", original.clone(), None), original);
    let body = OllamaError::from_refusal("500", None, b"\xffoops");
    assert_eq!(body.message(), "Ollama returned HTTP 500: \u{fffd}oops");
    let cause = "cause".to_owned();
    assert_eq!(
        OllamaError::Request { cause: cause.clone() }.message(),
        "failed to communicate with Ollama: cause"
    );
    assert_eq!(
        OllamaError::Stream { cause: cause.clone() }.message(),
        "failed to read Ollama's streamed response: cause"
    );
    assert_eq!(
        OllamaError::Decode { cause }.message(),
        "failed to decode Ollama response: cause"
    );
    assert_eq!(
        OllamaError::IncompleteStream.message(),
        "Ollama ended a streamed response before reporting completion"
    );
}

#[test]
fn plans_reserve_context_for_generation() {
    let quick = plan(false, Think::Off, 16_384).unwrap();
    assert_eq!(quick.mode, CommitMode::Normal);
    assert_eq!(quick.token_budget, 16_384 - 384 - 512);
    assert_eq!(quick.num_predict, Some(384));
    let thorough = plan(true, Think::High, 16_384).unwrap();
    assert_eq!(thorough.mode, CommitMode::Amend);
    assert_eq!(thorough.token_budget, 16_384 - 4_096 - 512);
    assert_eq!(thorough.num_predict, None);
    let error = plan(false, Think::On, 4_608).unwrap_err();
    assert_eq!(error.message(), "context 4608 cannot reserve 4608 tokens");
}

#[test]
fn existing_output_file_is_rejected_before_generation() {
    let stream = Some(OutputFile { path: path("Cargo.toml"), state: OutputPath::Taken });

    assert!(ensure_output_paths_are_available(&None, &stream)
        .unwrap_err()
        .message()
        .contains("refusing to overwrite"));
}

#[test]
fn output_files_must_differ_and_be_free() {
    let output = |name: &str, state: OutputPath| Some(OutputFile { path: path(name), state });
    let free = OutputPath::Free;
    assert!(ensure_output_paths_are_available(&output("a", free), &output("b", free)).is_ok());
    assert!(ensure_output_paths_are_available(&None, &None).is_ok());
    let message = |prompt: Option<OutputFile>, stream: Option<OutputFile>| {
        ensure_output_paths_are_available(&prompt, &stream).unwrap_err().message()
    };
    assert_eq!(
        message(output("a/./b", free), output("a/b", free)),
        "--prompt-file and --stream-file must name different files (a/./b)"
    );
    assert_eq!(
        message(output("a", OutputPath::Unknown), output("b", OutputPath::Taken)),
        "failed to inspect output path a"
    );
}

#[test]
fn empty_commits_can_only_be_amended() {
    let commit = ProspectiveCommit {
        mode: CommitMode::Normal,
        changes: Vec::new(),
        patch: Vec::new(),
        stats: CommitStats { files_changed: 0, insertions: 0, deletions: 0 },
    };
    assert_eq!(ensure_changes(&commit, false).unwrap_err().message(), "no staged changes");
    assert!(ensure_changes(&commit, true).is_ok());
}

#[test]
fn runs_report_counts_and_budget() {
    let stats = CommitStats { files_changed: 3, insertions: 10, deletions: 2 };
    assert_eq!(
        stats_output(plain(), "", stats),
        "3 file(s) in commit; line changes: +10 -2\n"
    );
    assert_eq!(
        budget_output(plain(), "", 50, 100),
        "Estimated input budget: ████████████░░░░░░░░░░░░░ 50 / 100 tokens (50%)\n"
    );
}

#[test]
fn models_are_loaded_unless_they_run() {
    let models = [running("qwen:latest", 4_096)];
    assert_eq!(loading_output(plain(), "", "qwen", 4_096, &models), None);
    assert_eq!(
        loading_output(plain(), "", "qwen", 8_192, &models).unwrap(),
        "Loading qwen with a 8192 token context...\n"
    );
}

#[test]
fn unexpected_reasons_are_warned_about() {
    assert_eq!(load_warning(Some("load")), None);
    assert_eq!(load_warning(None), None);
    assert_eq!(load_warning(Some("odd")).unwrap(), "Unexpected done reason: odd");
    assert_eq!(done_warning(Some("stop")), None);
    assert_eq!(done_warning(Some("length")).unwrap(), "Model output hit the token limit");
    assert_eq!(done_warning(Some("odd")).unwrap(), "Unexpected done reason: odd");
    assert_eq!(done_warning(None).unwrap(), "No done reason reported");
}

#[test]
fn messages_hold_instructions_and_prompt() {
    let sent = messages("prompt");
    assert_eq!(sent.len(), 2);
    assert_eq!((sent[0].role, sent[0].content.as_str()), (Role::System, Prompt::SYSTEM));
    assert_eq!((sent[1].role, sent[1].content.as_str()), (Role::User, "prompt"));
    assert!(Prompt::SYSTEM.starts_with("You are a Git commit-message assistant.\n"));
    assert!(Prompt::SYSTEM.ends_with("- Do not mention the model or prompt.\n"));
}

#[test]
fn empty_responses_are_refused() {
    assert_eq!(answer_content(&response(" {} \n", None, None)).unwrap(), "{}");
    let error = answer_content(&response(" \n", Some("hé"), Some(7))).unwrap_err();
    assert_eq!(
        error.message(),
        "model returned an empty response (generated 7 tokens, thinking: 3 bytes)"
    );
}

#[test]
fn one_line_answers_are_salvaged() {
    assert_eq!(salvaged(" Fix it \n").as_deref(), Some("Fix it"));
    assert_eq!(salvaged("Fix it\nnow"), None);
}

#[test]
fn streams_are_written_with_headings() {
    assert_eq!(stream_text(Some("hm"), "{}"), "# Thinking\nhm\n\n# Generation\n{}");
    assert_eq!(stream_text(None, "{}"), "# Thinking\n\n\n# Generation\n{}");
}

#[test]
fn analysis_and_doubt_are_shown() {
    assert_eq!(
        analysis_lines(&answer(Confidence::Medium)),
        [
            "Model analysis:",
            "  intent: Fix parsing",
            "  kind: BugFix",
            "  confidence: Medium",
            "  key changes:",
            "    - one",
            "    - two",
        ]
    );
    assert_eq!(confidence_warning(&answer(Confidence::Medium)), None);
    assert_eq!(
        confidence_warning(&answer(Confidence::Low)).unwrap(),
        "Model reports low confidence (BugFix): Fix parsing"
    );
}

#[test]
fn commit_messages_join_subject_and_body() {
    let full = answer(Confidence::High);
    assert_eq!(commit_message(&full, false).unwrap(), "Fix parser\n\nBecause.");
    assert_eq!(commit_message(&full, true).unwrap(), "Fix parser");
    let empty = CommitMessage { subject: " ".to_owned(), ..full };
    assert!(commit_message(&empty, false).is_err());
}

#[test]
fn streamed_parts_add_up_to_the_response() {
    let chunk = |content: &str, thinking: Option<&str>, done: bool| ChatChunk {
        content: content.to_owned(),
        thinking: thinking.map(str::to_owned),
        done,
        done_reason: done.then(|| "stop".to_owned()),
        prompt_eval_count: None,
        eval_count: done.then_some(5),
    };
    let mut streamed = StreamedMessage::new();
    assert_eq!(streamed.push(&chunk("", Some(""), false)), []);
    assert_eq!(
        streamed.push(&chunk("", Some("h"), false)),
        [ChatEvent::Thinking("h".to_owned())]
    );
    assert_eq!(
        streamed.push(&chunk("{", Some("m"), false)),
        [ChatEvent::Thinking("m".to_owned()), ChatEvent::Generating("{".to_owned())]
    );
    let last = chunk("}", None, true);
    assert_eq!(streamed.push(&last), [ChatEvent::Generating("}".to_owned())]);
    assert_eq!(streamed.finish(last), response("{}", Some("hm"), Some(5)));
}

#[test]
fn decimals_are_read_back() {
    for value in [0, 9, 10, 4_294_967_295, u64::MAX] {
        assert_eq!(parse_number(&value.to_string(), u64::MAX), Some(value));
    }
    assert_eq!(parse_number("256", 255), None);
    assert_eq!(parse_number("+255", 255), Some(255));
    assert_eq!(parse_number("-1", 255), None);
}

#[test]
fn printed_messages_open_no_editor() {
    assert_eq!(
        delivery(true, CommitMode::Normal, "Fix".to_owned()),
        Delivery::Print { message: "Fix".to_owned() }
    );
    let Delivery::Edit { arguments } = delivery(false, CommitMode::Amend, "Fix".to_owned()) else {
        panic!("expected the editor");
    };
    assert_eq!(arguments, ["commit", "--amend", "--edit", "--message", "Fix"]);
}

#[test]
fn long_durations_are_configured() {
    let mut long = config();
    long.keep_alive = text("10000000000s 1s");
    let kept = settings(Vec::new()).apply_local_config(long).unwrap().keep_alive.unwrap();
    assert_eq!(kept.as_secs(), 10_000_000_001);
}
