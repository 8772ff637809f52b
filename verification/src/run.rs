//! One run: what is to be done next, after what came of the work before.

use vstd::prelude::*;
use vstd::string::StringExecFns;

use crate::cli::Think;
use crate::generation::diff;
use crate::generation::prompt;
use crate::generation::prompt::{Prompt, PromptError, RepositoryContext, WindowTooSmall};
use crate::generation::response;
use crate::generation::response::{CommitMessage, EmptySubject};
use crate::git::change::ProspectiveCommit;
use crate::git::repo;
use crate::git::repo::CommitMode;
use crate::ollama::chat;
use crate::ollama::chat::{ChatResponse, Message, Role};
use crate::ollama::model::RunningModel;
use crate::order;
use crate::path::RepoPath;
use crate::session;
use crate::session::{
    Delivery, EmptyResponse, NoStagedChanges, OutputFile, OutputPathError, Plan,
};
use crate::terminal::terminal;
use crate::terminal::terminal::{Terminal, TextStyle};
use crate::text;

verus! {

/// What a run was asked for.
#[derive(Debug)]
pub struct RunOptions {
    /// Whether the current commit is replaced.
    pub amend: bool,
    /// Whether and how strongly the model should use explicit thinking.
    pub think: Think,
    /// Tokens of the model's context window.
    pub context_window: u32,
    /// The file for the prompt, if it is to be written.
    pub prompt_file: Option<OutputFile>,
    /// The file for what the model streams, if it is to be written.
    pub stream_file: Option<OutputFile>,
    /// Hints of the author.
    pub hints: Vec<String>,
    /// Files and directories whose diff is omitted.
    pub exclude_diff: Vec<RepoPath>,
    /// The model.
    pub model: String,
    /// Whether the model's analysis is shown.
    pub show_analysis: bool,
    /// Whether the body of the commit message is left out.
    pub no_body: bool,
    /// Whether the commit message is printed, and no commit created.
    pub print: bool,
    /// Where diagnostics go.
    pub terminal: Terminal,
}

/// What a run is waiting for.
#[derive(Debug)]
pub enum RunState {
    /// The start.
    Start,
    /// The prospective commit.
    ReadingCommit { plan: Plan },
    /// What the prompt needs from the repository.
    ReadingContext { plan: Plan, commit: ProspectiveCommit },
    /// The prompt file.
    WritingPrompt { plan: Plan, prompt: Prompt },
    /// The models that Ollama runs.
    ListingModels { plan: Plan, prompt: Prompt },
    /// The model.
    LoadingModel { plan: Plan, prompt: Prompt },
    /// The response of the model.
    Answering { plan: Plan },
    /// The stream file.
    WritingStream { plan: Plan, response: ChatResponse },
    /// The answer in the content of the response.
    Decoding { plan: Plan, content: String },
    /// Nothing.
    Ended,
}

/// What came of the work before.
#[derive(Debug)]
pub enum RunEvent {
    /// The run begins.
    Start,
    /// The prospective commit was read.
    CommitRead(ProspectiveCommit),
    /// What the prompt needs from the repository was read.
    ContextRead(RepositoryContext),
    /// A file was written.
    FileWritten,
    /// Ollama runs these models.
    ModelsListed(Vec<RunningModel>),
    /// The model was loaded; why that ended, if reported.
    ModelLoaded(Option<String>),
    /// The model responded.
    Answered(ChatResponse),
    /// The content of the response is this answer.
    Decoded(CommitMessage),
    /// The content of the response is no answer.
    NotDecoded,
}

/// Why a run ends without a commit message.
#[derive(Debug)]
pub enum RunError {
    /// The files cannot be written.
    Output(OutputPathError),
    /// The context window is too small.
    Window(WindowTooSmall),
    /// There is nothing to describe.
    NoChanges(NoStagedChanges),
    /// No prompt can be made.
    Prompt(PromptError),
    /// The response is empty.
    Empty(EmptyResponse),
    /// The response is no answer.
    NotDecoded,
    /// The answer has no subject.
    Subject(EmptySubject),
}

/// What is to be done next.
#[derive(Debug)]
pub enum RunAction {
    /// Read the prospective commit.
    ReadCommit { mode: CommitMode },
    /// Read what the prompt needs from the repository.
    ReadContext,
    /// Write the prompt file.
    WritePrompt { contents: String },
    /// List the models that Ollama runs.
    ListModels,
    /// Load the model.
    LoadModel { num_predict: Option<i32> },
    /// Ask the model.
    Chat { messages: Vec<Message>, num_predict: Option<i32> },
    /// Write the stream file.
    WriteStream { contents: String },
    /// Decode the answer.
    Decode { content: String },
    /// Deliver the commit message, which ends the run.
    Deliver(Delivery),
    /// Report an error, which ends the run.
    Fail(RunError),
    /// Go on with the work before.
    Wait,
}

/// One step of a run.
#[derive(Debug)]
pub struct Step {
    /// What is to be done next.
    pub action: RunAction,
    /// Diagnostics to be written before.
    pub output: String,
    /// A line to be printed before, if any.
    pub printed: Option<String>,
}

/// What an error is reported as.
pub open spec fn run_error_text(error: RunError) -> Seq<char> {
    match error {
        RunError::Output(error) => session::output_error_text(error),
        RunError::Window(error) => prompt::window_error_text(error),
        RunError::NoChanges(_) => "no staged changes"@,
        RunError::Prompt(error) => prompt::prompt_error_text(error),
        RunError::Empty(error) => session::empty_response_text(error),
        RunError::NotDecoded => "model returned invalid commit-message JSON"@,
        RunError::Subject(_) => "model returned an empty subject"@,
    }
}

impl RunError {
    /// What the error is reported as.
    pub fn message(&self) -> (message: String)
        ensures
            message@ == run_error_text(*self),
    {
        match self {
            RunError::Output(error) => error.message(),
            RunError::Window(error) => error.message(),
            RunError::NoChanges(error) => error.message().to_owned(),
            RunError::Prompt(error) => error.message(),
            RunError::Empty(error) => error.message(),
            RunError::NotDecoded => "model returned invalid commit-message JSON".to_owned(),
            RunError::Subject(error) => error.message().to_owned(),
        }
    }
}

/// Whether nothing is shown.
pub open spec fn is_silent(step: Step) -> bool {
    step.output@.len() == 0 && step.printed is None
}

/// Whether a run ends with an error.
pub open spec fn fails(after: RunState, step: Step, error: RunError) -> bool {
    after == RunState::Ended && step.action == RunAction::Fail(error)
}

/// A warning, where there is one.
pub open spec fn warning_output(
    terminal: Terminal,
    clock: Seq<char>,
    warning: Option<Seq<char>>,
) -> Seq<char> {
    match warning {
        Some(message) => terminal::if_progress(
            terminal,
            terminal::rendered_line(
                terminal,
                clock,
                seq![session::segment(TextStyle::Orange, message)],
            ),
        ),
        None => seq![],
    }
}

/// Lines of diagnostics.
pub open spec fn status_outputs(
    terminal: Terminal,
    clock: Seq<char>,
    lines: Seq<Seq<char>>,
) -> Seq<char>
    decreases lines.len(),
{
    if lines.len() == 0 {
        seq![]
    } else {
        status_outputs(terminal, clock, lines.drop_last()) + session::status_output(
            terminal,
            clock,
            lines.last(),
        )
    }
}

/// That a file was written.
pub open spec fn written_output(
    terminal: Terminal,
    clock: Seq<char>,
    label: Seq<char>,
    file: Option<OutputFile>,
) -> Seq<char> {
    match file {
        Some(file) => session::status_output(
            terminal,
            clock,
            label + text::lossy_utf8(file.path@),
        ),
        None => seq![],
    }
}

/// A run begins: its files can be written, and its context window is large enough.
pub open spec fn starts(options: RunOptions, after: RunState, step: Step) -> bool {
    &&& is_silent(step)
    &&& if !session::are_available(options.prompt_file, options.stream_file) {
        match step.action {
            RunAction::Fail(RunError::Output(error)) => after == RunState::Ended
                && session::is_first_fault(options.prompt_file, options.stream_file, error),
            _ => false,
        }
    } else {
        match session::planned(options.amend, options.think, options.context_window) {
            Ok(plan) => after == (RunState::ReadingCommit { plan }) && step.action == (
            RunAction::ReadCommit { mode: plan.mode }),
            Err(error) => fails(after, step, RunError::Window(error)),
        }
    }
}

/// A commit was read: there is something to describe.
pub open spec fn takes_commit(
    options: RunOptions,
    plan: Plan,
    commit: ProspectiveCommit,
    after: RunState,
    step: Step,
) -> bool {
    &&& is_silent(step)
    &&& if commit.changes@.len() == 0 && !options.amend {
        fails(after, step, RunError::NoChanges(NoStagedChanges))
    } else {
        after == (RunState::ReadingContext { plan, commit }) && step.action
            == RunAction::ReadContext
    }
}

/// What is shown of a commit and its prompt.
pub open spec fn prompt_output(
    terminal: Terminal,
    clock: Seq<char>,
    commit: ProspectiveCommit,
    user: Seq<char>,
    budget: nat,
) -> Seq<char> {
    terminal::if_progress(
        terminal,
        terminal::rendered_line(terminal, clock, session::stats_segments(commit.stats)),
    ) + session::status_output(
        terminal,
        clock,
        session::budget_text(prompt::request_tokens(user), budget),
    )
}

/// Whether a prompt holds a user message.
pub open spec fn holds(prompt: Prompt, user: Seq<char>) -> bool {
    prompt.text@ == user && prompt.estimated_tokens == prompt::request_tokens(user)
}

/// The prompt that a commit and its repository give.
pub open spec fn prompted(
    options: RunOptions,
    plan: Plan,
    commit: ProspectiveCommit,
    context: RepositoryContext,
) -> Result<Seq<char>, PromptError> {
    prompt::fitted(
        context,
        text::texts(options.hints@),
        commit,
        order::path_bytes(options.exclude_diff@),
        plan.token_budget,
    )
}

/// What the prompt needs was read: the prompt fits its budget.
pub open spec fn takes_context(
    options: RunOptions,
    plan: Plan,
    commit: ProspectiveCommit,
    context: RepositoryContext,
    clock: Seq<char>,
    after: RunState,
    step: Step,
) -> bool {
    match prompted(options, plan, commit, context) {
        Err(error) => is_silent(step) && fails(after, step, RunError::Prompt(error)),
        Ok(user) => {
            &&& step.output@ == prompt_output(
                options.terminal,
                clock,
                commit,
                user,
                plan.token_budget as nat,
            )
            &&& step.printed is None
            &&& match (after, step.action) {
                (
                    RunState::WritingPrompt { plan: kept, prompt },
                    RunAction::WritePrompt { contents },
                ) => options.prompt_file is Some && kept == plan && holds(prompt, user)
                    && contents@ == prompt::context_file(user),
                (
                    RunState::ListingModels { plan: kept, prompt },
                    RunAction::ListModels,
                ) => options.prompt_file is None && kept == plan && holds(prompt, user),
                _ => false,
            }
        },
    }
}

/// Whether messages are the instructions and a request.
pub open spec fn asks(messages: Seq<Message>, user: Seq<char>) -> bool {
    &&& messages.len() == 2
    &&& messages[0].role == Role::System
    &&& messages[0].content@ == Prompt::SYSTEM@
    &&& messages[1].role == Role::User
    &&& messages[1].content@ == user
}

/// The model is asked.
pub open spec fn starts_chat(plan: Plan, prompt: Prompt, after: RunState, step: Step) -> bool {
    &&& after == (RunState::Answering { plan })
    &&& match step.action {
        RunAction::Chat { messages, num_predict } => asks(messages@, prompt.text@) && num_predict
            == plan.num_predict,
        _ => false,
    }
}

/// The running models were listed: the model is loaded where it has to be.
pub open spec fn takes_models(
    options: RunOptions,
    plan: Plan,
    prompt: Prompt,
    running: Seq<RunningModel>,
    clock: Seq<char>,
    after: RunState,
    step: Step,
) -> bool {
    if session::is_to_be_loaded(options.model@, options.context_window, running) {
        &&& after == (RunState::LoadingModel { plan, prompt })
        &&& step.action == (RunAction::LoadModel { num_predict: plan.num_predict })
        &&& step.output@ == terminal::if_progress(
            options.terminal,
            terminal::rendered_line(
                options.terminal,
                clock,
                session::loading_segments(options.model@, options.context_window as nat),
            ),
        )
        &&& step.printed is None
    } else {
        is_silent(step) && starts_chat(plan, prompt, after, step)
    }
}

/// A response is complete: its content is decoded, unless it is empty.
pub open spec fn completes(
    options: RunOptions,
    plan: Plan,
    response: ChatResponse,
    after: RunState,
    step: Step,
) -> bool {
    let content = text::trim(response.message.content@);
    &&& step.printed is None
    &&& if content.len() == 0 {
        match step.action {
            RunAction::Fail(RunError::Empty(error)) => after == RunState::Ended && error.tokens
                == chat::reported(response.eval_count) && error.thinking_bytes
                == session::thinking_bytes(response),
            _ => false,
        }
    } else {
        match (after, step.action) {
            (
                RunState::Decoding { plan: kept, content: held },
                RunAction::Decode { content: handed },
            ) => kept == plan && held@ == content && handed@ == content,
            _ => false,
        }
    }
}

/// What is said of the reason why a response ended.
pub open spec fn done_output(terminal: Terminal, clock: Seq<char>, response: ChatResponse) -> Seq<
    char,
> {
    warning_output(
        terminal,
        clock,
        session::done_warning_text(text::optional_text(response.done_reason)),
    )
}

/// The model responded.
pub open spec fn takes_response(
    options: RunOptions,
    plan: Plan,
    response: ChatResponse,
    clock: Seq<char>,
    after: RunState,
    step: Step,
) -> bool {
    if options.stream_file is Some {
        &&& is_silent(step)
        &&& after == (RunState::WritingStream { plan, response })
        &&& match step.action {
            RunAction::WriteStream { contents } => contents@ == session::stream_file(
                text::optional_text(response.message.thinking),
                response.message.content@,
            ),
            _ => false,
        }
    } else {
        step.output@ == done_output(options.terminal, clock, response) && completes(
            options,
            plan,
            response,
            after,
            step,
        )
    }
}

/// What is shown of an answer.
pub open spec fn answer_output(
    options: RunOptions,
    clock: Seq<char>,
    answer: CommitMessage,
) -> Seq<char> {
    warning_output(options.terminal, clock, session::doubt(answer)) + if options.show_analysis {
        status_outputs(options.terminal, clock, session::analysis(answer))
    } else {
        seq![]
    }
}

/// An answer was decoded: its commit message is delivered, unless it has no subject.
pub open spec fn takes_answer(
    options: RunOptions,
    plan: Plan,
    answer: CommitMessage,
    clock: Seq<char>,
    after: RunState,
    step: Step,
) -> bool {
    let shown = answer_output(options, clock, answer);
    let message = session::message_text(answer, options.no_body);
    &&& after == RunState::Ended
    &&& step.printed is None
    &&& if response::on_one_line(answer.subject@).len() == 0 {
        step.output@ == shown && step.action == RunAction::Fail(RunError::Subject(EmptySubject))
    } else {
        match step.action {
            RunAction::Deliver(Delivery::Print { message: printed }) => options.print && printed@
                == message && step.output@ == shown,
            RunAction::Deliver(Delivery::Edit { arguments }) => !options.print && text::texts(
                arguments@,
            ) == repo::commit_command(plan.mode, message) && step.output@ == shown
                + session::status_output(
                options.terminal,
                clock,
                "Opening the Git commit editor"@,
            ),
            _ => false,
        }
    }
}

/// A content was not decoded: it is printed where it is one line and might still be a valid
/// suggestion.
pub open spec fn gives_up(content: Seq<char>, after: RunState, step: Step) -> bool {
    &&& step.output@.len() == 0
    &&& fails(after, step, RunError::NotDecoded)
    &&& match step.printed {
        Some(line) => line@ == text::trim(content) && !line@.contains('\n'),
        None => text::trim(content).contains('\n'),
    }
}

/// One step of a run, from what it waited for and what came of it. What it does not wait for
/// changes nothing.
pub open spec fn advances(
    options: RunOptions,
    before: RunState,
    event: RunEvent,
    clock: Seq<char>,
    after: RunState,
    step: Step,
) -> bool {
    match (before, event) {
        (RunState::Start, RunEvent::Start) => starts(options, after, step),
        (RunState::ReadingCommit { plan }, RunEvent::CommitRead(commit)) => takes_commit(
            options,
            plan,
            commit,
            after,
            step,
        ),
        (RunState::ReadingContext { plan, commit }, RunEvent::ContextRead(context)) =>
            takes_context(options, plan, commit, context, clock, after, step),
        (RunState::WritingPrompt { plan, prompt }, RunEvent::FileWritten) => {
            &&& after == (RunState::ListingModels { plan, prompt })
            &&& step.action == RunAction::ListModels
            &&& step.output@ == written_output(
                options.terminal,
                clock,
                "Wrote model context to: "@,
                options.prompt_file,
            )
            &&& step.printed is None
        },
        (RunState::ListingModels { plan, prompt }, RunEvent::ModelsListed(running)) =>
            takes_models(options, plan, prompt, running@, clock, after, step),
        (RunState::LoadingModel { plan, prompt }, RunEvent::ModelLoaded(reason)) => {
            &&& starts_chat(plan, prompt, after, step)
            &&& step.output@ == warning_output(
                options.terminal,
                clock,
                session::load_warning_text(text::optional_text(reason)),
            )
            &&& step.printed is None
        },
        (RunState::Answering { plan }, RunEvent::Answered(response)) => takes_response(
            options,
            plan,
            response,
            clock,
            after,
            step,
        ),
        (RunState::WritingStream { plan, response }, RunEvent::FileWritten) => step.output@
            == written_output(
            options.terminal,
            clock,
            "Wrote model streams to: "@,
            options.stream_file,
        ) + done_output(options.terminal, clock, response) && completes(
            options,
            plan,
            response,
            after,
            step,
        ),
        (RunState::Decoding { plan, .. }, RunEvent::Decoded(answer)) => takes_answer(
            options,
            plan,
            answer,
            clock,
            after,
            step,
        ),
        (RunState::Decoding { content, .. }, RunEvent::NotDecoded) => gives_up(
            content@,
            after,
            step,
        ),
        _ => is_silent(step) && after == before && step.action == RunAction::Wait,
    }
}

/// Whether a plan is that of a run whose files can be written.
pub open spec fn is_planned(options: RunOptions, plan: Plan) -> bool {
    &&& session::are_available(options.prompt_file, options.stream_file)
    &&& session::planned(options.amend, options.think, options.context_window) == Ok::<
        _,
        WindowTooSmall,
    >(plan)
}

/// Whether a prompt fits the budget of a plan.
pub open spec fn fits(plan: Plan, prompt: Prompt) -> bool {
    holds(prompt, prompt.text@) && prompt.estimated_tokens <= plan.token_budget
}

/// What holds of a run in every state: nothing is read before the files and the context window
/// are known to do, a commit is described only where it has changes or is amended, and every
/// prompt fits its budget.
pub open spec fn is_sound(options: RunOptions, state: RunState) -> bool {
    match state {
        RunState::Start => true,
        RunState::ReadingCommit { plan } => is_planned(options, plan),
        RunState::ReadingContext { plan, commit } => is_planned(options, plan) && (
        commit.changes@.len() > 0 || options.amend),
        RunState::WritingPrompt { plan, prompt } => is_planned(options, plan) && fits(plan, prompt)
            && options.prompt_file is Some,
        RunState::ListingModels { plan, prompt } => is_planned(options, plan) && fits(plan, prompt),
        RunState::LoadingModel { plan, prompt } => is_planned(options, plan) && fits(plan, prompt),
        RunState::Answering { plan } => is_planned(options, plan),
        RunState::WritingStream { plan, .. } => is_planned(options, plan)
            && options.stream_file is Some,
        RunState::Decoding { plan, .. } => is_planned(options, plan),
        RunState::Ended => true,
    }
}

/// Without diagnostics.
fn silent(action: RunAction) -> (step: Step)
    ensures
        is_silent(step),
        step.action == action,
{
    let output = String::new();
    Step { action, output, printed: None }
}

/// With diagnostics.
fn shown(action: RunAction, output: String) -> (step: Step)
    ensures
        step.action == action,
        step.output == output,
        step.printed is None,
{
    Step { action, output, printed: None }
}

/// An optional text, borrowed.
fn borrowed(text: &Option<String>) -> (result: Option<&str>)
    ensures
        session::reason_text(result) == text::optional_text(*text),
{
    match text {
        Some(text) => Some(text.as_str()),
        None => None,
    }
}

/// Append a warning, where there is one.
fn append_warning(output: &mut String, terminal: Terminal, clock: &str, warning: Option<String>)
    ensures
        final(output)@ == old(output)@ + warning_output(
            terminal,
            clock@,
            text::optional_text(warning),
        ),
{
    match warning {
        Some(message) => output.append(&terminal.warning(clock, &message)),
        None => {},
    }
    assert(output@ =~= old(output)@ + warning_output(
        terminal,
        clock@,
        text::optional_text(warning),
    ));
}

/// Append lines of diagnostics.
fn append_lines(output: &mut String, terminal: Terminal, clock: &str, lines: &[String])
    ensures
        final(output)@ == old(output)@ + status_outputs(terminal, clock@, text::texts(lines@)),
{
    let ghost all = text::texts(lines@);
    assert(output@ =~= old(output)@ + status_outputs(terminal, clock@, all.take(0)));
    for i in 0..lines.len()
        invariant
            all == text::texts(lines@),
            output@ == old(output)@ + status_outputs(terminal, clock@, all.take(i as int)),
    {
        output.append(&terminal.status(clock, &lines[i]));
        assert(all.take(i + 1).drop_last() =~= all.take(i as int));
        assert(all.take(i + 1).last() == lines@[i as int]@);
        assert(output@ =~= old(output)@ + status_outputs(terminal, clock@, all.take(i + 1)));
    }
    assert(all.take(all.len() as int) =~= all);
}

/// Say that a file was written.
fn written(terminal: Terminal, clock: &str, label: &str, file: &Option<OutputFile>) -> (output:
    String)
    ensures
        output@ == written_output(terminal, clock@, label@, *file),
{
    match file {
        Some(file) => {
            let mut message = label.to_owned();
            message.append(&file.path.display());
            terminal.status(clock, &message)
        },
        None => String::new(),
    }
}

/// Begin a run.
fn start(options: &RunOptions) -> (next: (RunState, Step))
    ensures
        starts(*options, next.0, next.1),
        is_sound(*options, next.0),
{
    if let Err(error) = session::ensure_output_paths_are_available(
        &options.prompt_file,
        &options.stream_file,
    ) {
        return (RunState::Ended, silent(RunAction::Fail(RunError::Output(error))));
    }
    match session::plan(options.amend, options.think, options.context_window) {
        Ok(plan) => (
            RunState::ReadingCommit { plan },
            silent(RunAction::ReadCommit { mode: plan.mode }),
        ),
        Err(error) => (RunState::Ended, silent(RunAction::Fail(RunError::Window(error)))),
    }
}

/// Take the prospective commit.
fn take_commit(options: &RunOptions, plan: Plan, commit: ProspectiveCommit) -> (next: (
    RunState,
    Step,
))
    requires
        is_planned(*options, plan),
    ensures
        takes_commit(*options, plan, commit, next.0, next.1),
        is_sound(*options, next.0),
{
    match session::ensure_changes(&commit, options.amend) {
        Ok(()) => (RunState::ReadingContext { plan, commit }, silent(RunAction::ReadContext)),
        Err(error) => (RunState::Ended, silent(RunAction::Fail(RunError::NoChanges(error)))),
    }
}

/// Take what the prompt needs from the repository.
fn take_context(
    options: &RunOptions,
    plan: Plan,
    commit: &ProspectiveCommit,
    context: RepositoryContext,
    clock: &str,
) -> (next: (RunState, Step))
    requires
        is_planned(*options, plan),
    ensures
        takes_context(*options, plan, *commit, context, clock@, next.0, next.1),
        is_sound(*options, next.0),
{
    let prompt = match Prompt::new(
        context,
        &options.hints,
        commit,
        &options.exclude_diff,
        plan.token_budget,
    ) {
        Ok(prompt) => prompt,
        Err(error) => {
            return (RunState::Ended, silent(RunAction::Fail(RunError::Prompt(error))));
        },
    };
    let mut output = session::stats_output(options.terminal, clock, commit.stats());
    let budget = session::budget_output(
        options.terminal,
        clock,
        prompt.estimated_tokens,
        plan.token_budget,
    );
    output.append(&budget);
    match &options.prompt_file {
        Some(_) => {
            let contents = prompt.context_text();
            (
                RunState::WritingPrompt { plan, prompt },
                shown(RunAction::WritePrompt { contents }, output),
            )
        },
        None => (RunState::ListingModels { plan, prompt }, shown(RunAction::ListModels, output)),
    }
}

/// Ask the model.
fn chat(plan: Plan, prompt: &Prompt, output: String) -> (next: (RunState, Step))
    ensures
        starts_chat(plan, *prompt, next.0, next.1),
        next.1.output == output,
        next.1.printed is None,
{
    let messages = session::messages(&prompt.text);
    (
        RunState::Answering { plan },
        shown(RunAction::Chat { messages, num_predict: plan.num_predict }, output),
    )
}

/// Take the running models.
fn take_models(
    options: &RunOptions,
    plan: Plan,
    prompt: Prompt,
    running: &[RunningModel],
    clock: &str,
) -> (next: (RunState, Step))
    requires
        is_planned(*options, plan),
        fits(plan, prompt),
    ensures
        takes_models(*options, plan, prompt, running@, clock@, next.0, next.1),
        is_sound(*options, next.0),
{
    match session::loading_output(
        options.terminal,
        clock,
        &options.model,
        options.context_window,
        running,
    ) {
        Some(output) => (
            RunState::LoadingModel { plan, prompt },
            shown(RunAction::LoadModel { num_predict: plan.num_predict }, output),
        ),
        None => chat(plan, &prompt, String::new()),
    }
}

/// Complete a response.
fn complete(
    options: &RunOptions,
    plan: Plan,
    response: &ChatResponse,
    clock: &str,
    before: String,
) -> (next: (RunState, Step))
    requires
        is_planned(*options, plan),
    ensures
        next.1.output@ == before@ + done_output(options.terminal, clock@, *response),
        completes(*options, plan, *response, next.0, next.1),
        is_sound(*options, next.0),
{
    let mut output = before;
    append_warning(
        &mut output,
        options.terminal,
        clock,
        session::done_warning(borrowed(&response.done_reason)),
    );
    match session::answer_content(response) {
        Ok(content) => {
            let held = content.as_str().to_owned();
            (
                RunState::Decoding { plan, content: held },
                shown(RunAction::Decode { content }, output),
            )
        },
        Err(error) => (RunState::Ended, shown(RunAction::Fail(RunError::Empty(error)), output)),
    }
}

/// Take the response of the model.
fn take_response(options: &RunOptions, plan: Plan, response: ChatResponse, clock: &str) -> (next: (
    RunState,
    Step,
))
    requires
        is_planned(*options, plan),
    ensures
        takes_response(*options, plan, response, clock@, next.0, next.1),
        is_sound(*options, next.0),
{
    match &options.stream_file {
        Some(_) => {
            let contents = session::stream_text(
                borrowed(&response.message.thinking),
                &response.message.content,
            );
            (
                RunState::WritingStream { plan, response },
                silent(RunAction::WriteStream { contents }),
            )
        },
        None => complete(options, plan, &response, clock, String::new()),
    }
}

/// Take an answer.
fn take_answer(options: &RunOptions, plan: Plan, answer: &CommitMessage, clock: &str) -> (next: (
    RunState,
    Step,
))
    ensures
        takes_answer(*options, plan, *answer, clock@, next.0, next.1),
        is_sound(*options, next.0),
{
    let mut output = String::new();
    append_warning(&mut output, options.terminal, clock, session::confidence_warning(answer));
    if options.show_analysis {
        append_lines(&mut output, options.terminal, clock, &session::analysis_lines(answer));
    }
    assert(output@ =~= answer_output(*options, clock@, *answer));
    let message = match session::commit_message(answer, options.no_body) {
        Ok(message) => message,
        Err(error) => {
            return (RunState::Ended, shown(RunAction::Fail(RunError::Subject(error)), output));
        },
    };
    let delivery = session::delivery(options.print, plan.mode, message);
    if !options.print {
        output.append(&options.terminal.status(clock, "Opening the Git commit editor"));
    }
    (RunState::Ended, shown(RunAction::Deliver(delivery), output))
}

/// Give up on a content that is no answer.
fn give_up(content: &str) -> (next: (RunState, Step))
    ensures
        gives_up(content@, next.0, next.1),
{
    let output = String::new();
    let printed = session::salvaged(content);
    (
        RunState::Ended,
        Step { action: RunAction::Fail(RunError::NotDecoded), output, printed },
    )
}

/// One run.
#[derive(Debug)]
pub struct Run {
    options: RunOptions,
    state: RunState,
}

impl Run {
    /// What the run was asked for.
    pub closed spec fn options(&self) -> RunOptions {
        self.options
    }

    /// What the run is waiting for.
    pub closed spec fn state(&self) -> RunState {
        self.state
    }

    #[verifier::type_invariant]
    closed spec fn is_sound(self) -> bool {
        is_sound(self.options, self.state)
    }

    /// A run that has not begun.
    pub fn new(options: RunOptions) -> (run: Run)
        ensures
            run.options() == options,
            run.state() == RunState::Start,
    {
        Run { options, state: RunState::Start }
    }

    /// The commit that the run describes, while what its prompt needs is read.
    pub fn commit(&self) -> (commit: Option<&ProspectiveCommit>)
        ensures
            match self.state() {
                RunState::ReadingContext { commit: held, .. } => commit == Some(&held),
                _ => commit is None,
            },
    {
        match &self.state {
            RunState::ReadingContext { commit, .. } => Some(commit),
            _ => None,
        }
    }

    /// Go on with what came of the work before.
    pub fn step(self, event: RunEvent, clock: &str) -> (next: (Run, Step))
        ensures
            next.0.options() == self.options(),
            advances(self.options(), self.state(), event, clock@, next.0.state(), next.1),
            is_sound(self.options(), self.state()),
            is_sound(next.0.options(), next.0.state()),
    {
        proof {
            use_type_invariant(&self);
        }
        let Run { options, state } = self;
        let (state, step) = match (state, event) {
            (RunState::Start, RunEvent::Start) => start(&options),
            (RunState::ReadingCommit { plan }, RunEvent::CommitRead(commit)) => take_commit(
                &options,
                plan,
                commit,
            ),
            (RunState::ReadingContext { plan, commit }, RunEvent::ContextRead(context)) => {
                take_context(&options, plan, &commit, context, clock)
            },
            (RunState::WritingPrompt { plan, prompt }, RunEvent::FileWritten) => {
                let output = written(
                    options.terminal,
                    clock,
                    "Wrote model context to: ",
                    &options.prompt_file,
                );
                (RunState::ListingModels { plan, prompt }, shown(RunAction::ListModels, output))
            },
            (RunState::ListingModels { plan, prompt }, RunEvent::ModelsListed(running)) => {
                take_models(&options, plan, prompt, &running, clock)
            },
            (RunState::LoadingModel { plan, prompt }, RunEvent::ModelLoaded(reason)) => {
                let mut output = String::new();
                let warning = session::load_warning(borrowed(&reason));
                append_warning(&mut output, options.terminal, clock, warning);
                chat(plan, &prompt, output)
            },
            (RunState::Answering { plan }, RunEvent::Answered(response)) => take_response(
                &options,
                plan,
                response,
                clock,
            ),
            (RunState::WritingStream { plan, response }, RunEvent::FileWritten) => {
                let output = written(
                    options.terminal,
                    clock,
                    "Wrote model streams to: ",
                    &options.stream_file,
                );
                complete(&options, plan, &response, clock, output)
            },
            (RunState::Decoding { plan, .. }, RunEvent::Decoded(answer)) => take_answer(
                &options,
                plan,
                &answer,
                clock,
            ),
            (RunState::Decoding { content, .. }, RunEvent::NotDecoded) => give_up(&content),
            (state, _) => (state, silent(RunAction::Wait)),
        };
        (Run { options, state }, step)
    }
}

/// A run that is to print its commit message opens no editor, and one that is to open the editor
/// prints none.
pub proof fn lemma_printed_messages_open_no_editor(
    options: RunOptions,
    before: RunState,
    event: RunEvent,
    clock: Seq<char>,
    after: RunState,
    step: Step,
)
    requires
        advances(options, before, event, clock, after, step),
    ensures
        match step.action {
            RunAction::Deliver(Delivery::Print { .. }) => options.print,
            RunAction::Deliver(Delivery::Edit { .. }) => !options.print,
            _ => true,
        },
{
}

/// The model is loaded and asked only where the files of the run can be written, and with a prompt
/// within the budget that the context window leaves.
pub proof fn lemma_models_are_asked_within_the_window(
    options: RunOptions,
    before: RunState,
    event: RunEvent,
    clock: Seq<char>,
    after: RunState,
    step: Step,
)
    requires
        is_sound(options, before),
        advances(options, before, event, clock, after, step),
    ensures
        step.action is LoadModel || step.action is Chat ==> session::are_available(
            options.prompt_file,
            options.stream_file,
        ),
        match step.action {
            RunAction::Chat { messages, .. } => asks(messages@, messages@[1].content@)
                && prompt::request_tokens(messages@[1].content@) + session::reserve(options.think)
                + prompt::CONTEXT_MARGIN <= options.context_window,
            _ => true,
        },
{
}

/// A run that has ended does nothing more, and it ends with a commit message or an error.
pub proof fn lemma_ended_runs_stay_ended(
    options: RunOptions,
    before: RunState,
    event: RunEvent,
    clock: Seq<char>,
    after: RunState,
    step: Step,
)
    requires
        advances(options, before, event, clock, after, step),
    ensures
        before is Ended ==> after is Ended && step.action is Wait && is_silent(step),
        before !is Ended ==> (after is Ended <==> step.action is Deliver || step.action is Fail),
{
}

/// Lines of diagnostics are empty where progress is not shown.
proof fn lemma_quiet_lines_are_empty(terminal: Terminal, clock: Seq<char>, lines: Seq<Seq<char>>)
    requires
        !terminal.progress,
    ensures
        status_outputs(terminal, clock, lines).len() == 0,
    decreases lines.len(),
{
    if lines.len() > 0 {
        lemma_quiet_lines_are_empty(terminal, clock, lines.drop_last());
    }
}

/// A quiet run writes no diagnostics.
pub proof fn lemma_quiet_runs_write_no_diagnostics(
    options: RunOptions,
    before: RunState,
    event: RunEvent,
    clock: Seq<char>,
    after: RunState,
    step: Step,
)
    requires
        advances(options, before, event, clock, after, step),
        !options.terminal.progress,
    ensures
        step.output@.len() == 0,
{
    if let RunEvent::Decoded(answer) = event {
        lemma_quiet_lines_are_empty(options.terminal, clock, session::analysis(answer));
    }
}

/// What is delivered is the message of the answer: its normalized subject, and its body unless bodies
/// are left out. The current commit is replaced exactly where that was asked for.
pub proof fn lemma_delivered_messages_are_those_of_the_answer(
    options: RunOptions,
    before: RunState,
    event: RunEvent,
    clock: Seq<char>,
    after: RunState,
    step: Step,
)
    requires
        is_sound(options, before),
        advances(options, before, event, clock, after, step),
    ensures
        step.action is Deliver ==> event is Decoded && {
            let answer = event->Decoded_0;
            let subject = response::on_one_line(answer.subject@);
            let message = if options.no_body || answer.body is None || text::trim(
                answer.body->0@,
            ).len() == 0 {
                subject
            } else {
                subject + "\n\n"@ + text::trim(answer.body->0@)
            };
            &&& subject.len() > 0
            &&& step.action matches RunAction::Deliver(Delivery::Print { message: printed })
                ==> printed@ == message
            &&& step.action matches RunAction::Deliver(Delivery::Edit { arguments })
                ==> text::texts(arguments@) == repo::commit_command(
                if options.amend {
                    CommitMode::Amend
                } else {
                    CommitMode::Normal
                },
                message,
            )
        },
{
}

/// Files are written only where they were asked for, a model is loaded only where it does not run,
/// and the model's answer is decoded as it came, but for the white space around it.
pub proof fn lemma_runs_do_only_what_is_asked_for(
    options: RunOptions,
    before: RunState,
    event: RunEvent,
    clock: Seq<char>,
    after: RunState,
    step: Step,
)
    requires
        is_sound(options, before),
        advances(options, before, event, clock, after, step),
    ensures
        step.action is WritePrompt ==> options.prompt_file is Some,
        step.action is WriteStream ==> options.stream_file is Some,
        step.action is ReadCommit ==> step.action == (RunAction::ReadCommit {
            mode: if options.amend {
                CommitMode::Amend
            } else {
                CommitMode::Normal
            },
        }),
        step.action is LoadModel ==> (event matches RunEvent::ModelsListed(running)
            && session::is_to_be_loaded(options.model@, options.context_window, running@)),
        step.action matches RunAction::Decode { content } ==> content@.len() > 0 && ((
        event matches RunEvent::Answered(response) && content@ == text::trim(
            response.message.content@,
        )) || (before matches RunState::WritingStream { response, .. } && content@ == text::trim(
            response.message.content@,
        ))),
        event matches RunEvent::Answered(response) && before is Answering && options.stream_file
            is None && text::trim(response.message.content@).len() == 0 ==> step.action is Fail,
        event is Decoded && before is Decoding && response::on_one_line(
            event->Decoded_0.subject@,
        ).len() > 0 ==> step.action is Deliver,
{
}

/// What the author gives reaches the model: every hint is an item of a list in the message, and the
/// message ends with the diff of the commit without the excluded paths.
pub proof fn lemma_hints_reach_the_model(
    options: RunOptions,
    plan: Plan,
    commit: ProspectiveCommit,
    context: RepositoryContext,
)
    ensures
        prompted(options, plan, commit, context) matches Ok(user) ==> {
            &&& prompt::request_tokens(user) <= plan.token_budget
            &&& forall|i: int|
                0 <= i < options.hints@.len() ==> text::occurs(
                    "- "@ + (#[trigger] options.hints@[i])@,
                    user,
                )
            &&& diff::diff_text(commit, order::path_bytes(options.exclude_diff@)) matches Ok(shown)
                && text::ends_with(
                user,
                "\n## Concrete commit diff\n```diff\n"@ + shown + "\n```\n"@,
            )
        },
{
    let hints = text::texts(options.hints@);
    let excluded = order::path_bytes(options.exclude_diff@);
    prompt::lemma_prompts_show_the_commit(context, hints, commit, excluded, plan.token_budget);
    prompt::lemma_prompts_fit_and_keep_required_parts(
        context,
        hints,
        commit,
        excluded,
        plan.token_budget,
    );
    if let Ok(user) = prompted(options, plan, commit, context) {
        assert forall|i: int| 0 <= i < options.hints@.len() implies text::occurs(
            "- "@ + (#[trigger] options.hints@[i])@,
            user,
        ) by {
            assert(hints[i] == options.hints@[i]@);
        }
    }
}

} // verus!
