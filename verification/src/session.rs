//! The decisions of one run, from the checks before it to the commit message.

use vstd::prelude::*;
use vstd::string::StringExecFns;

use crate::cli;
use crate::cli::Think;
use crate::generation::prompt;
use crate::generation::prompt::{Prompt, WindowTooSmall};
use crate::generation::response;
use crate::generation::response::{CommitMessage, Confidence, EmptySubject};
use crate::git::change::{CommitStats, ProspectiveCommit};
use crate::git::repo;
use crate::git::repo::CommitMode;
use crate::ollama::chat;
use crate::ollama::chat::{ChatResponse, Message, Role};
use crate::ollama::model;
use crate::ollama::model::RunningModel;
use crate::path;
use crate::path::RepoPath;
use crate::terminal::terminal;
use crate::terminal::terminal::{Segment, Terminal, TextStyle};
use crate::text;

verus! {

/// Maximum number of tokens Ollama may generate for the structured response.
///
/// A commit message should be much shorter than this, but the schema permits a 100-character
/// subject, a body of up to 700 characters, and a few small classification fields. This leaves
/// enough room for that worst case without reserving a significant fraction of a typical model
/// context.
pub const NUM_PREDICT: i32 = 384;

/// Tokens reserved for the structured response.
pub const PREDICT_RESERVE: u32 = 384;

/// Minimum context reserved for model reasoning and the final response when generation itself is
/// not capped.
pub const THINKING_CONTEXT_RESERVE: u32 = 4_096;

/// Cells of the bar that shows how much of the input budget a prompt uses.
pub const BUDGET_BAR_CELLS: usize = 25;

/// What a run is to do.
#[derive(Debug, Clone, Copy, PartialEq, Eq, Structural)]
pub struct Plan {
    /// How the prospective commit is constructed.
    pub mode: CommitMode,
    /// Tokens available for the prompt.
    pub token_budget: usize,
    /// Maximum number of tokens to generate; none while the model thinks.
    pub num_predict: Option<i32>,
}

/// The tokens reserved for what the model generates.
pub open spec fn reserve(think: Think) -> u32 {
    if think == Think::Off {
        PREDICT_RESERVE
    } else {
        THINKING_CONTEXT_RESERVE
    }
}

/// What a run within a context window is to do.
pub open spec fn planned(amend: bool, think: Think, context_window: u32) -> Result<
    Plan,
    WindowTooSmall,
> {
    let reserved = reserve(think) + prompt::CONTEXT_MARGIN;
    if context_window <= reserved {
        Err(WindowTooSmall { model_context: context_window, reserved: reserved as u32 })
    } else {
        Ok(
            Plan {
                mode: if amend {
                    CommitMode::Amend
                } else {
                    CommitMode::Normal
                },
                token_budget: (context_window - reserved) as usize,
                num_predict: if think == Think::Off {
                    Some(NUM_PREDICT)
                } else {
                    None
                },
            },
        )
    }
}

/// Plan a run within a context window.
pub fn plan(amend: bool, think: Think, context_window: u32) -> (result: Result<
    Plan,
    WindowTooSmall,
>)
    ensures
        result == planned(amend, think, context_window),
        result matches Ok(plan) ==> plan.token_budget > 0,
{
    let thinks = think.is_on();
    let reserved = if thinks {
        THINKING_CONTEXT_RESERVE
    } else {
        PREDICT_RESERVE
    };
    match Prompt::available_tokens(context_window, reserved) {
        Ok(token_budget) => Ok(
            Plan {
                mode: cli::commit_mode(amend),
                token_budget,
                num_predict: if thinks {
                    None
                } else {
                    Some(NUM_PREDICT)
                },
            },
        ),
        Err(error) => Err(error),
    }
}

/// What is known of a path that a run is to write.
#[derive(Debug, Clone, Copy, PartialEq, Eq, Structural)]
pub enum OutputPath {
    /// Nothing is there.
    Free,
    /// Something is there.
    Taken,
    /// It cannot be inspected.
    Unknown,
}

/// Why the files of a run cannot be written.
#[derive(Debug, Clone, PartialEq, Eq)]
pub enum OutputPathError {
    /// Both files have the same path.
    Same {
        /// The path.
        path: RepoPath,
    },
    /// A file exists already.
    Exists {
        /// The path.
        path: RepoPath,
    },
    /// A path cannot be inspected.
    NotInspected {
        /// The path.
        path: RepoPath,
    },
}

/// What an error is reported as.
pub open spec fn output_error_text(error: OutputPathError) -> Seq<char> {
    match error {
        OutputPathError::Same { path } =>
            "--prompt-file and --stream-file must name different files ("@ + text::lossy_utf8(path@)
            + ")"@,
        OutputPathError::Exists { path } => "refusing to overwrite existing file: "@
            + text::lossy_utf8(path@),
        OutputPathError::NotInspected { path } => "failed to inspect output path "@
            + text::lossy_utf8(path@),
    }
}

impl OutputPathError {
    /// What the error is reported as.
    pub fn message(&self) -> (message: String)
        ensures
            message@ == output_error_text(*self),
    {
        match self {
            OutputPathError::Same { path } => {
                let mut message =
                    "--prompt-file and --stream-file must name different files (".to_owned();
                message.append(&path.display());
                message.append(")");
                message
            },
            OutputPathError::Exists { path } => {
                let mut message = "refusing to overwrite existing file: ".to_owned();
                message.append(&path.display());
                message
            },
            OutputPathError::NotInspected { path } => {
                let mut message = "failed to inspect output path ".to_owned();
                message.append(&path.display());
                message
            },
        }
    }
}

/// A file that a run is to write, with what is known of its path.
#[derive(Debug)]
pub struct OutputFile {
    /// The path.
    pub path: RepoPath,
    /// What is there.
    pub state: OutputPath,
}

/// The fault of one file, if any.
pub open spec fn is_refused(file: Option<OutputFile>, error: OutputPathError) -> bool {
    match (file, error) {
        (Some(file), OutputPathError::Exists { path }) => file.state == OutputPath::Taken && path@
            == file.path@,
        (Some(file), OutputPathError::NotInspected { path }) => file.state == OutputPath::Unknown
            && path@ == file.path@,
        _ => false,
    }
}

/// Whether a file can be written, or is not to be written.
pub open spec fn is_free(file: Option<OutputFile>) -> bool {
    match file {
        Some(file) => file.state == OutputPath::Free,
        None => true,
    }
}

/// Whether both files are to be written to the same path.
pub open spec fn are_same(prompt_file: Option<OutputFile>, stream_file: Option<OutputFile>) -> bool {
    match (prompt_file, stream_file) {
        (Some(prompt_file), Some(stream_file)) => path::same(
            prompt_file.path@,
            stream_file.path@,
        ),
        _ => false,
    }
}

/// Check that one file can be written.
fn check_output_path(file: &Option<OutputFile>) -> (result: Result<(), OutputPathError>)
    ensures
        match result {
            Ok(()) => is_free(*file),
            Err(error) => is_refused(*file, error),
        },
{
    match file {
        Some(file) => match file.state {
            OutputPath::Free => Ok(()),
            OutputPath::Taken => Err(OutputPathError::Exists { path: file.path.copied() }),
            OutputPath::Unknown => Err(OutputPathError::NotInspected { path: file.path.copied() }),
        },
        None => Ok(()),
    }
}

/// Whether the files of a run can be written: they have different paths, and nothing is there.
pub open spec fn are_available(
    prompt_file: Option<OutputFile>,
    stream_file: Option<OutputFile>,
) -> bool {
    !are_same(prompt_file, stream_file) && is_free(prompt_file) && is_free(stream_file)
}

/// Whether an error is the first fault of the files of a run.
pub open spec fn is_first_fault(
    prompt_file: Option<OutputFile>,
    stream_file: Option<OutputFile>,
    error: OutputPathError,
) -> bool {
    if are_same(prompt_file, stream_file) {
        match (error, prompt_file) {
            (OutputPathError::Same { path }, Some(file)) => path@ == file.path@,
            _ => false,
        }
    } else if !is_free(prompt_file) {
        is_refused(prompt_file, error)
    } else {
        !is_free(stream_file) && is_refused(stream_file, error)
    }
}

/// Check, before anything is generated, that the files of a run can be written. The first fault
/// counts.
pub fn ensure_output_paths_are_available(
    prompt_file: &Option<OutputFile>,
    stream_file: &Option<OutputFile>,
) -> (result: Result<(), OutputPathError>)
    ensures
        match result {
            Ok(()) => are_available(*prompt_file, *stream_file),
            Err(error) => is_first_fault(*prompt_file, *stream_file, error),
        },
{
    if let (Some(prompt_file), Some(stream_file)) = (prompt_file, stream_file) {
        if prompt_file.path.same_as(&stream_file.path) {
            return Err(OutputPathError::Same { path: prompt_file.path.copied() });
        }
    }
    match check_output_path(prompt_file) {
        Ok(()) => check_output_path(stream_file),
        Err(error) => Err(error),
    }
}

/// A commit without changes, which is not to be amended.
#[derive(Debug, Clone, Copy, PartialEq, Eq, Structural)]
pub struct NoStagedChanges;

impl NoStagedChanges {
    /// What the error is reported as.
    pub fn message(&self) -> (message: &'static str)
        ensures
            message@ == "no staged changes"@,
    {
        "no staged changes"
    }
}

/// Check that there is something to describe: an amended commit may be without changes.
pub fn ensure_changes(commit: &ProspectiveCommit, amend: bool) -> (result: Result<
    (),
    NoStagedChanges,
>)
    ensures
        result is Err <==> commit.changes@.len() == 0 && !amend,
{
    if commit.is_empty() && !amend {
        Err(NoStagedChanges)
    } else {
        Ok(())
    }
}

/// A styled text.
pub open spec fn segment(style: TextStyle, content: Seq<char>) -> terminal::SegmentView {
    terminal::SegmentView { style, content }
}

/// The counts of a commit.
pub open spec fn stats_segments(stats: CommitStats) -> Seq<terminal::SegmentView> {
    seq![
        segment(
            TextStyle::Neutral,
            text::decimal(stats.files_changed as nat) + " file(s) in commit; "@,
        ),
        segment(TextStyle::Neutral, "line changes: "@),
        segment(TextStyle::Green, "+"@ + text::decimal(stats.insertions as nat)),
        segment(TextStyle::Neutral, " "@),
        segment(TextStyle::Red, "-"@ + text::decimal(stats.deletions as nat)),
    ]
}

/// A sign and a number.
fn signed(sign: &str, count: usize) -> (result: String)
    ensures
        result@ == sign@ + text::decimal(count as nat),
{
    let mut result = sign.to_owned();
    text::append_decimal(&mut result, count as u64);
    result
}

/// Show the counts of a commit.
pub fn stats_output(terminal: Terminal, clock: &str, stats: CommitStats) -> (output: String)
    ensures
        output@ == terminal::if_progress(
            terminal,
            terminal::rendered_line(terminal, clock@, stats_segments(stats)),
        ),
{
    let mut files = String::new();
    text::append_decimal(&mut files, stats.files_changed as u64);
    files.append(" file(s) in commit; ");
    assert(files@ =~= text::decimal(stats.files_changed as nat) + " file(s) in commit; "@);
    let insertions = signed("+", stats.insertions);
    let deletions = signed("-", stats.deletions);
    let segments: Vec<Segment<'_>> = vec![
        Segment::text(TextStyle::Neutral, &files),
        Segment::text(TextStyle::Neutral, "line changes: "),
        Segment::text(TextStyle::Green, &insertions),
        Segment::text(TextStyle::Neutral, " "),
        Segment::text(TextStyle::Red, &deletions),
    ];
    assert(terminal::segment_views(segments@) =~= stats_segments(stats));
    terminal.status_segments(clock, &segments)
}

/// How much of a budget is used, in whole percent.
pub open spec fn percentage(used: nat, budget: nat) -> nat {
    prompt::saturated(used * 100) / budget
}

/// How much of the input budget a prompt uses.
pub open spec fn budget_text(used: nat, budget: nat) -> Seq<char> {
    "Estimated input budget: "@ + terminal::bar(used, budget, BUDGET_BAR_CELLS as nat) + " "@
        + text::decimal(used) + " / "@ + text::decimal(budget) + " tokens ("@ + text::decimal(
        percentage(used, budget),
    ) + "%)"@
}

/// A line of dim text.
pub open spec fn status_output(terminal: Terminal, clock: Seq<char>, message: Seq<char>) -> Seq<char> {
    terminal::if_progress(
        terminal,
        terminal::rendered_line(terminal, clock, seq![segment(TextStyle::Neutral, message)]),
    )
}

/// Show how much of the input budget a prompt uses.
pub fn budget_output(terminal: Terminal, clock: &str, used: usize, budget: usize) -> (output: String)
    requires
        budget > 0,
    ensures
        output@ == status_output(terminal, clock@, budget_text(used as nat, budget as nat)),
{
    let product = match used.checked_mul(100) {
        Some(product) => product,
        None => usize::MAX,
    };
    let mut message = "Estimated input budget: ".to_owned();
    message.append(&Terminal::progress_bar(used, budget, BUDGET_BAR_CELLS));
    message.append(" ");
    text::append_decimal(&mut message, used as u64);
    message.append(" / ");
    text::append_decimal(&mut message, budget as u64);
    message.append(" tokens (");
    text::append_decimal(&mut message, (product / budget) as u64);
    message.append("%)");
    assert(message@ =~= budget_text(used as nat, budget as nat));
    terminal.status(clock, &message)
}

/// What shows that a model is being loaded.
pub open spec fn loading_segments(model: Seq<char>, context_window: nat) -> Seq<
    terminal::SegmentView,
> {
    seq![
        segment(TextStyle::Neutral, "Loading "@),
        segment(TextStyle::BoldNeutral, model),
        segment(
            TextStyle::Neutral,
            " with a "@ + text::decimal(context_window) + " token context..."@,
        ),
    ]
}

/// Whether a model has to be loaded: it does not run with the context window yet.
pub open spec fn is_to_be_loaded(
    model: Seq<char>,
    context_window: u32,
    running: Seq<RunningModel>,
) -> bool {
    forall|i: int|
        0 <= i < running.len() ==> !model::runs(#[trigger] running[i], model, context_window)
}

/// Show that a model is being loaded, where it has to be.
pub fn loading_output(
    terminal: Terminal,
    clock: &str,
    model: &str,
    context_window: u32,
    running: &[RunningModel],
) -> (output: Option<String>)
    ensures
        match output {
            Some(shown) => is_to_be_loaded(model@, context_window, running@) && shown@
                == terminal::if_progress(
                terminal,
                terminal::rendered_line(
                    terminal,
                    clock@,
                    loading_segments(model@, context_window as nat),
                ),
            ),
            None => !is_to_be_loaded(model@, context_window, running@),
        },
{
    if model::is_model_contained(model, context_window, running) {
        return None;
    }
    let mut label = " with a ".to_owned();
    text::append_decimal(&mut label, context_window as u64);
    label.append(" token context...");
    let segments: Vec<Segment<'_>> = vec![
        Segment::text(TextStyle::Neutral, "Loading "),
        Segment::text(TextStyle::BoldNeutral, model),
        Segment::text(TextStyle::Neutral, &label),
    ];
    assert(terminal::segment_views(segments@) =~= loading_segments(
        model@,
        context_window as nat,
    ));
    Some(terminal.status_segments(clock, &segments))
}

/// What is said of an unexpected reason to stop.
pub open spec fn unexpected_reason(reason: Seq<char>) -> Seq<char> {
    "Unexpected done reason: "@ + reason
}

/// What is said of the reason to stop after a model was loaded.
pub open spec fn load_warning_text(reason: Option<Seq<char>>) -> Option<Seq<char>> {
    match reason {
        Some(reason) => if reason == "load"@ {
            None
        } else {
            Some(unexpected_reason(reason))
        },
        None => None,
    }
}

/// What is said of the reason to stop after a response.
pub open spec fn done_warning_text(reason: Option<Seq<char>>) -> Option<Seq<char>> {
    match reason {
        Some(reason) => if reason == "stop"@ {
            None
        } else if reason == "length"@ {
            Some("Model output hit the token limit"@)
        } else {
            Some(unexpected_reason(reason))
        },
        None => Some("No done reason reported"@),
    }
}

/// A reason as text.
pub open spec fn reason_text(reason: Option<&str>) -> Option<Seq<char>> {
    match reason {
        Some(reason) => Some(reason@),
        None => None,
    }
}

/// Say that a reason to stop is unexpected.
fn unexpected(reason: &str) -> (warning: String)
    ensures
        warning@ == unexpected_reason(reason@),
{
    let mut warning = "Unexpected done reason: ".to_owned();
    warning.append(reason);
    warning
}

/// The warning about the reason to stop after a model was loaded.
pub fn load_warning(reason: Option<&str>) -> (warning: Option<String>)
    ensures
        text::optional_text(warning) == load_warning_text(reason_text(reason)),
{
    match reason {
        Some(reason) => {
            if text::same_text(reason, "load") {
                None
            } else {
                Some(unexpected(reason))
            }
        },
        None => None,
    }
}

/// The warning about the reason to stop after a response.
pub fn done_warning(reason: Option<&str>) -> (warning: Option<String>)
    ensures
        text::optional_text(warning) == done_warning_text(reason_text(reason)),
{
    match reason {
        Some(reason) => {
            if text::same_text(reason, "stop") {
                None
            } else if text::same_text(reason, "length") {
                Some("Model output hit the token limit".to_owned())
            } else {
                Some(unexpected(reason))
            }
        },
        None => Some("No done reason reported".to_owned()),
    }
}

/// The messages that a model is asked with.
pub fn messages(prompt: &str) -> (result: Vec<Message>)
    ensures
        result@.len() == 2,
        result@[0].role == Role::System,
        result@[0].content@ == Prompt::SYSTEM@,
        result@[1].role == Role::User,
        result@[1].content@ == prompt@,
{
    let system = Message { role: Role::System, content: Prompt::SYSTEM.to_owned() };
    let user = Message { role: Role::User, content: prompt.to_owned() };
    vec![system, user]
}

/// The file that holds what a model streamed.
pub open spec fn stream_file(thinking: Option<Seq<char>>, content: Seq<char>) -> Seq<char> {
    "# Thinking\n"@ + (match thinking {
        Some(thinking) => thinking,
        None => seq![],
    }) + "\n\n# Generation\n"@ + content
}

/// The file that holds what a model streamed.
pub fn stream_text(thinking: Option<&str>, content: &str) -> (contents: String)
    ensures
        contents@ == stream_file(reason_text(thinking), content@),
{
    let mut contents = "# Thinking\n".to_owned();
    if let Some(thinking) = thinking {
        contents.append(thinking);
    }
    contents.append("\n\n# Generation\n");
    contents.append(content);
    assert(contents@ =~= stream_file(reason_text(thinking), content@));
    contents
}

/// A response without content.
#[derive(Debug, Clone, Copy, PartialEq, Eq, Structural)]
pub struct EmptyResponse {
    /// Number of generated tokens.
    pub tokens: u64,
    /// Number of bytes of reasoning.
    pub thinking_bytes: usize,
}

/// What the error is reported as.
pub open spec fn empty_response_text(error: EmptyResponse) -> Seq<char> {
    "model returned an empty response (generated "@ + text::decimal(error.tokens as nat)
        + " tokens, thinking: "@ + text::decimal(error.thinking_bytes as nat) + " bytes)"@
}

impl EmptyResponse {
    /// What the error is reported as.
    pub fn message(&self) -> (message: String)
        ensures
            message@ == empty_response_text(*self),
    {
        let mut message = "model returned an empty response (generated ".to_owned();
        text::append_decimal(&mut message, self.tokens);
        message.append(" tokens, thinking: ");
        text::append_decimal(&mut message, self.thinking_bytes as u64);
        message.append(" bytes)");
        message
    }
}

/// The bytes of the reasoning in a response.
pub open spec fn thinking_bytes(response: ChatResponse) -> nat {
    match response.message.thinking {
        Some(thinking) => text::byte_len(thinking@),
        None => 0,
    }
}

/// The content of a response, without white space around it.
pub fn answer_content(response: &ChatResponse) -> (result: Result<String, EmptyResponse>)
    ensures
        match result {
            Ok(content) => content@ == text::trim(response.message.content@) && content@.len() > 0,
            Err(error) => text::trim(response.message.content@).len() == 0 && error.tokens
                == chat::reported(response.eval_count) && error.thinking_bytes == thinking_bytes(
                *response,
            ),
        },
{
    let content = text::trimmed(&response.message.content);
    if !content.as_str().is_empty() {
        return Ok(content);
    }
    let tokens = match response.eval_count {
        Some(count) => count,
        None => 0,
    };
    let thinking_bytes = match &response.message.thinking {
        Some(thinking) => thinking.as_str().as_bytes().len(),
        None => 0,
    };
    Err(EmptyResponse { tokens, thinking_bytes })
}

/// The content of an answer that cannot be decoded, where it is one line and might still be a
/// valid suggestion.
pub fn salvaged(content: &str) -> (result: Option<String>)
    ensures
        match result {
            Some(line) => line@ == text::trim(content@) && !line@.contains('\n'),
            None => text::trim(content@).contains('\n'),
        },
{
    let line = text::trimmed(content);
    let chars = text::chars_of(&line);
    for i in 0..chars.len()
        invariant
            chars@ == line@,
            line@ == text::trim(content@),
            forall|j: int| 0 <= j < i ==> line@[j] != '\n',
    {
        if chars[i] == '\n' {
            assert(line@.contains(line@[i as int]));
            return None;
        }
    }
    Some(line)
}

/// What is said of an answer with low confidence.
pub open spec fn doubt(answer: CommitMessage) -> Option<Seq<char>> {
    if answer.confidence == Confidence::Low {
        Some(
            "Model reports low confidence ("@ + response::kind_label(answer.change_kind) + "): "@
                + answer.intent@,
        )
    } else {
        None
    }
}

/// The warning about an answer with low confidence.
pub fn confidence_warning(answer: &CommitMessage) -> (warning: Option<String>)
    ensures
        text::optional_text(warning) == doubt(*answer),
{
    match answer.confidence {
        Confidence::Low => {
            let mut warning = "Model reports low confidence (".to_owned();
            warning.append(answer.change_kind.label());
            warning.append("): ");
            warning.append(&answer.intent);
            Some(warning)
        },
        _ => None,
    }
}

/// Texts as the items of an indented list.
pub open spec fn change_lines(changes: Seq<Seq<char>>) -> Seq<Seq<char>> {
    changes.map_values(|change: Seq<char>| "    - "@ + change)
}

/// The lines that show a model's analysis.
pub open spec fn analysis(answer: CommitMessage) -> Seq<Seq<char>> {
    let head = seq![
        "Model analysis:"@,
        "  intent: "@ + answer.intent@,
        "  kind: "@ + response::kind_label(answer.change_kind),
        "  confidence: "@ + response::confidence_label(answer.confidence),
    ];
    if answer.key_changes@.len() == 0 {
        head
    } else {
        head + seq!["  key changes:"@] + change_lines(text::texts(answer.key_changes@))
    }
}

/// A label and a value.
fn labelled(label: &str, value: &str) -> (line: String)
    ensures
        line@ == label@ + value@,
{
    let mut line = label.to_owned();
    line.append(value);
    line
}

/// The lines that show a model's analysis.
pub fn analysis_lines(answer: &CommitMessage) -> (lines: Vec<String>)
    ensures
        text::texts(lines@) == analysis(*answer),
{
    let mut lines: Vec<String> = vec![
        "Model analysis:".to_owned(),
        labelled("  intent: ", &answer.intent),
        labelled("  kind: ", answer.change_kind.label()),
        labelled("  confidence: ", answer.confidence.label()),
    ];
    let ghost changes = text::texts(answer.key_changes@);
    if answer.key_changes.len() > 0 {
        lines.push("  key changes:".to_owned());
        let ghost head = text::texts(lines@);
        assert(text::texts(lines@) =~= head + change_lines(changes.take(0)));
        for i in 0..answer.key_changes.len()
            invariant
                changes == text::texts(answer.key_changes@),
                text::texts(lines@) == head + change_lines(changes.take(i as int)),
        {
            let line = labelled("    - ", &answer.key_changes[i]);
            assert(line@ == "    - "@ + changes[i as int]);
            proof {
                text::lemma_texts_push(lines@, line);
            }
            lines.push(line);
            assert(text::texts(lines@) =~= head + change_lines(changes.take(i + 1)));
        }
        assert(changes.take(changes.len() as int) =~= changes);
    }
    assert(text::texts(lines@) =~= analysis(*answer));
    lines
}

/// The commit message that an answer gives: its subject on one line, and its body, if any, below
/// an empty line.
pub open spec fn message_text(answer: CommitMessage, no_body: bool) -> Seq<char> {
    let subject = response::on_one_line(answer.subject@);
    match answer.body {
        Some(body) => if no_body || text::trim(body@).len() == 0 {
            subject
        } else {
            subject + "\n\n"@ + text::trim(body@)
        },
        None => subject,
    }
}

/// The commit message that an answer gives.
pub fn commit_message(answer: &CommitMessage, no_body: bool) -> (result: Result<
    String,
    EmptySubject,
>)
    ensures
        match result {
            Ok(message) => message@ == message_text(*answer, no_body) && response::on_one_line(
                answer.subject@,
            ).len() > 0,
            Err(_) => response::on_one_line(answer.subject@).len() == 0,
        },
{
    let mut message = match answer.normalized_subject() {
        Ok(subject) => subject,
        Err(error) => return Err(error),
    };
    if !no_body {
        if let Some(body) = answer.normalized_body() {
            message.append("\n\n");
            message.append(&body);
        }
    }
    Ok(message)
}

/// What is done with a commit message.
#[derive(Debug, Clone, PartialEq, Eq)]
pub enum Delivery {
    /// It is printed; no commit is created.
    Print {
        /// The message.
        message: String,
    },
    /// Git's editor is opened with it.
    Edit {
        /// Arguments of the Git command.
        arguments: Vec<String>,
    },
}

/// Deliver a commit message: print it where that was asked for, or else open Git's editor.
pub fn delivery(print: bool, mode: CommitMode, message: String) -> (delivery: Delivery)
    ensures
        match delivery {
            Delivery::Print { message: printed } => print && printed == message,
            Delivery::Edit { arguments } => !print && text::texts(arguments@)
                == repo::commit_command(mode, message@),
        },
{
    if print {
        Delivery::Print { message }
    } else {
        Delivery::Edit { arguments: repo::commit_arguments(mode, &message) }
    }
}

/// The first line of a commit message is the normalized subject.
pub proof fn lemma_messages_start_with_their_subject(answer: CommitMessage, no_body: bool)
    ensures
        text::starts_with(
            message_text(answer, no_body),
            response::on_one_line(answer.subject@),
        ),
        no_body ==> message_text(answer, no_body) == response::on_one_line(answer.subject@),
{
    let subject = response::on_one_line(answer.subject@);
    let message = message_text(answer, no_body);
    assert(message.take(subject.len() as int) =~= subject);
}

/// A plan uses all of the window but what is reserved: 384 tokens for an answer without thinking or
/// 4,096 with it, and 512 as a margin. Only a window that holds no more than those is refused, and
/// only an answer without thinking is limited.
pub proof fn lemma_plans_use_the_whole_window(amend: bool, think: Think, context_window: u32)
    ensures
        planned(amend, think, context_window) is Err <==> context_window <= (if think
            == Think::Off {
            384int
        } else {
            4_096
        }) + 512,
        planned(amend, think, context_window) matches Ok(plan) ==> {
            &&& plan.token_budget + (if think == Think::Off {
                384int
            } else {
                4_096
            }) + 512 == context_window
            &&& plan.mode == CommitMode::Amend <==> amend
            &&& plan.num_predict == if think == Think::Off {
                Some(384i32)
            } else {
                None
            }
        },
{
}

/// Files are written only where nothing is: each that is asked for is free, and they are not the
/// same.
pub proof fn lemma_available_files_overwrite_nothing(
    prompt_file: Option<OutputFile>,
    stream_file: Option<OutputFile>,
)
    ensures
        are_available(prompt_file, stream_file) <==> {
            &&& prompt_file matches Some(file) ==> file.state == OutputPath::Free
            &&& stream_file matches Some(file) ==> file.state == OutputPath::Free
            &&& prompt_file is Some && stream_file is Some ==> path::components(
                prompt_file->0.path@,
            ) != path::components(stream_file->0.path@)
        },
        prompt_file is Some && prompt_file == stream_file ==> !are_available(
            prompt_file,
            stream_file,
        ),
{
}

/// The contents of styled texts in a row.
pub open spec fn contents(segments: Seq<terminal::SegmentView>) -> Seq<char>
    decreases segments.len(),
{
    if segments.len() == 0 {
        seq![]
    } else {
        contents(segments.drop_last()) + segments.last().content
    }
}

/// The counts of a commit read as one line: inserted lines behind a plus sign and in green, deleted
/// ones behind a minus sign and in red.
#[verifier::rlimit(50)]
pub proof fn lemma_counts_read_as_one_line(stats: CommitStats)
    ensures
        contents(stats_segments(stats)) == text::decimal(stats.files_changed as nat)
            + " file(s) in commit; line changes: +"@ + text::decimal(stats.insertions as nat)
            + " -"@ + text::decimal(stats.deletions as nat),
        exists|i: int|
            0 <= i < stats_segments(stats).len() && (#[trigger] stats_segments(stats)[i]).style
                == TextStyle::Green && stats_segments(stats)[i].content == "+"@ + text::decimal(
                stats.insertions as nat,
            ),
        exists|i: int|
            0 <= i < stats_segments(stats).len() && (#[trigger] stats_segments(stats)[i]).style
                == TextStyle::Red && stats_segments(stats)[i].content == "-"@ + text::decimal(
                stats.deletions as nat,
            ),
{
    let all = stats_segments(stats);
    assert(all[2].style == TextStyle::Green);
    assert(all[4].style == TextStyle::Red);
    reveal_with_fuel(contents, 6);
    assert(all.drop_last() =~= all.take(4));
    assert(all.take(4).drop_last() =~= all.take(3));
    assert(all.take(3).drop_last() =~= all.take(2));
    assert(all.take(2).drop_last() =~= all.take(1));
    assert(all.take(1).drop_last() =~= all.take(0));
    reveal_strlit(" file(s) in commit; line changes: +");
    reveal_strlit(" file(s) in commit; ");
    reveal_strlit("line changes: ");
    reveal_strlit("+");
    reveal_strlit(" -");
    reveal_strlit(" ");
    reveal_strlit("-");
    assert(" file(s) in commit; line changes: +"@ =~= " file(s) in commit; "@ + "line changes: "@
        + "+"@);
    assert(" -"@ =~= " "@ + "-"@);
    assert(contents(all) =~= text::decimal(stats.files_changed as nat)
        + " file(s) in commit; line changes: +"@ + text::decimal(stats.insertions as nat) + " -"@
        + text::decimal(stats.deletions as nat));
}

/// The percentage is the whole part of what the used tokens are of the budget.
pub proof fn lemma_percentages_are_rounded_down(used: nat, budget: nat)
    requires
        budget > 0,
        used * 100 <= usize::MAX,
    ensures
        percentage(used, budget) * budget <= used * 100 < (percentage(used, budget) + 1) * budget,
        used == budget ==> percentage(used, budget) == 100,
{
    let product: int = (used * 100) as int;
    let divisor: int = budget as int;
    vstd::arithmetic::div_mod::lemma_fundamental_div_mod(product, divisor);
    assert(percentage(used, budget) == product / divisor);
    assert((product / divisor + 1) * divisor == divisor * (product / divisor) + divisor)
        by (nonlinear_arith);
    assert((product / divisor) * divisor == divisor * (product / divisor)) by (nonlinear_arith);
    if used == budget {
        vstd::arithmetic::div_mod::lemma_div_multiples_vanish(100, divisor);
        assert(product == divisor * 100);
    }
}

/// A model is not loaded again where it runs with the wanted context window, whether or not it is
/// reported with the tag for the latest version, and always loaded where none runs with that window.
pub proof fn lemma_models_are_loaded_only_where_none_runs(
    model: Seq<char>,
    context_window: u32,
    running: Seq<RunningModel>,
    i: int,
)
    ensures
        0 <= i < running.len() && running[i].context_length == context_window && (
        running[i].model@ == model || (running[i].model@ == model + ":latest"@ && !text::ends_with(
            model,
            ":latest"@,
        ))) ==> !is_to_be_loaded(model, context_window, running),
        (forall|k: int|
            0 <= k < running.len() ==> (#[trigger] running[k]).context_length != context_window
                || model::normal_name(running[k].model@) != model::normal_name(model))
            ==> is_to_be_loaded(model, context_window, running),
{
    if 0 <= i < running.len() && running[i].context_length == context_window {
        if !text::ends_with(model, ":latest"@) {
            model::lemma_latest_tag_is_implied(model);
        }
        if running[i].model@ == model || (running[i].model@ == model + ":latest"@
            && !text::ends_with(model, ":latest"@)) {
            assert(model::runs(running[i], model, context_window));
        }
    }
}

/// A response that stopped by itself is not warned of, and every other is; a model that was loaded
/// is not warned of, nor is one without a reason.
pub proof fn lemma_only_unexpected_endings_are_warned_of(reason: Option<Seq<char>>)
    ensures
        done_warning_text(reason) is None <==> reason == Some("stop"@),
        reason == Some("length"@) ==> done_warning_text(reason) == Some(
            "Model output hit the token limit"@,
        ),
        reason is Some && done_warning_text(reason) is Some && reason != Some("length"@)
            ==> text::ends_with(done_warning_text(reason)->0, reason->0),
        load_warning_text(reason) is None <==> reason is None || reason == Some("load"@),
        load_warning_text(reason) is Some ==> text::ends_with(
            load_warning_text(reason)->0,
            reason->0,
        ),
{
    reveal_strlit("stop");
    reveal_strlit("length");
    assert("stop"@.len() != "length"@.len());
    if let Some(reason) = reason {
        let shown = unexpected_reason(reason);
        assert(shown.skip(shown.len() - reason.len()) =~= reason);
    }
}

/// The file for what a model streamed holds its thinking and ends with what it generated.
pub proof fn lemma_stream_files_hold_both_streams(thinking: Seq<char>, content: Seq<char>)
    ensures
        text::starts_with(stream_file(Some(thinking), content), "# Thinking\n"@ + thinking),
        text::ends_with(stream_file(Some(thinking), content), "\n\n# Generation\n"@ + content),
        stream_file(Some(thinking), content).len() == "# Thinking\n"@.len() + thinking.len()
            + "\n\n# Generation\n"@.len() + content.len(),
        stream_file(None, content) == stream_file(Some(seq![]), content),
{
    let whole = stream_file(Some(thinking), content);
    let start = "# Thinking\n"@ + thinking;
    let end = "\n\n# Generation\n"@ + content;
    assert(whole =~= start + end);
    assert(whole.take(start.len() as int) =~= start);
    assert(whole.skip(whole.len() - end.len()) =~= end);
}

/// The author is told of low confidence, and only of that, with the model's reading of the intent.
pub proof fn lemma_only_low_confidence_is_doubted(answer: CommitMessage)
    ensures
        doubt(answer) is Some <==> answer.confidence == Confidence::Low,
        doubt(answer) matches Some(warning) ==> text::ends_with(warning, answer.intent@),
{
    if let Some(warning) = doubt(answer) {
        assert(warning.skip(warning.len() - answer.intent@.len()) =~= answer.intent@);
    }
}

/// The analysis names the intent, and every key change on a line of its own.
pub proof fn lemma_analyses_name_every_key_change(answer: CommitMessage, i: int)
    requires
        0 <= i < answer.key_changes@.len(),
    ensures
        analysis(answer).contains("    - "@ + answer.key_changes@[i]@),
        analysis(answer).contains("  intent: "@ + answer.intent@),
        analysis(answer).len() == answer.key_changes@.len() + 5,
{
    let lines = analysis(answer);
    assert(lines[5 + i] == "    - "@ + answer.key_changes@[i]@);
    assert(lines[1] == "  intent: "@ + answer.intent@);
}

/// A message is its subject, and a body that is not blank after an empty line, unless bodies are left
/// out.
pub proof fn lemma_messages_end_with_their_body(answer: CommitMessage, no_body: bool)
    ensures
        !no_body && (answer.body matches Some(body) && text::trim(body@).len() > 0)
            ==> message_text(answer, no_body) == message_text(answer, true) + "\n\n"@ + text::trim(
            answer.body->0@,
        ),
        (answer.body is None || text::trim(answer.body->0@).len() == 0) ==> message_text(
            answer,
            no_body,
        ) == message_text(answer, true),
        message_text(answer, true) == response::on_one_line(answer.subject@),
{
}

} // verus!
