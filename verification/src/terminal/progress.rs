//! The display of a streamed model response.

use vstd::prelude::*;
use vstd::string::StringExecFns;

use crate::ollama::chat;
use crate::ollama::chat::{ChatEvent, ChatResponse};
use crate::terminal::spinner;
use crate::terminal::spinner::Spinner;
use crate::terminal::terminal;
use crate::terminal::terminal::{Segment, Terminal, TextStyle};
use crate::text;

verus! {

/// Maximum reasoning lines shown in the live preview.
pub const THINKING_PREVIEW_LINES: usize = 5;

/// Fallback preview width when terminal width is unavailable.
pub const THINKING_PREVIEW_FALLBACK_COLUMNS: usize = 72;

/// Columns of a timestamp: `[HH:MM:SS] `.
pub const TIMESTAMP_COLUMNS: usize = 11;

/// Width below which a terminal width is not used.
pub const MINIMUM_COLUMNS: usize = 20;

/// Nanoseconds in a second.
pub const NANOS_PER_SECOND: u32 = 1_000_000_000;

/// A span of time, or a moment as the time since some earlier one.
#[derive(Debug, Clone, Copy)]
pub struct Elapsed {
    secs: u64,
    nanos: u32,
}

impl View for Elapsed {
    type V = nat;

    /// The time in nanoseconds.
    closed spec fn view(&self) -> nat {
        (self.secs * NANOS_PER_SECOND + self.nanos) as nat
    }
}

/// Time in whole seconds, rounded, unless that is more than a `u64` holds.
pub open spec fn rounded_seconds(nanos: nat) -> nat {
    let seconds = (nanos + 500_000_000) / 1_000_000_000;
    if seconds > u64::MAX {
        u64::MAX as nat
    } else {
        seconds
    }
}

/// Elapsed time as seconds, or minutes and seconds.
pub open spec fn elapsed_text(nanos: nat) -> Seq<char> {
    let seconds = rounded_seconds(nanos);
    if seconds / 60 == 0 {
        text::decimal(seconds % 60) + "s"@
    } else {
        text::decimal(seconds / 60) + "m "@ + text::decimal(seconds % 60) + "s"@
    }
}

/// The time from one moment to another, or none where that is earlier.
pub open spec fn time_between(from: nat, to: nat) -> nat {
    if to >= from {
        (to - from) as nat
    } else {
        0
    }
}

impl Elapsed {
    #[verifier::type_invariant]
    closed spec fn has_whole_seconds(self) -> bool {
        self.nanos < NANOS_PER_SECOND
    }

    /// Seconds and the nanoseconds beyond them.
    pub fn new(secs: u64, nanos: u32) -> (elapsed: Elapsed)
        requires
            nanos < NANOS_PER_SECOND,
        ensures
            elapsed@ == secs * NANOS_PER_SECOND + nanos,
    {
        Elapsed { secs, nanos }
    }

    /// Milliseconds.
    pub fn from_millis(millis: u64) -> (elapsed: Elapsed)
        ensures
            elapsed@ == millis * 1_000_000,
    {
        Elapsed { secs: millis / 1000, nanos: (millis % 1000) as u32 * 1_000_000 }
    }

    /// Seconds.
    pub fn from_secs(secs: u64) -> (elapsed: Elapsed)
        ensures
            elapsed@ == secs * NANOS_PER_SECOND,
    {
        Elapsed { secs, nanos: 0 }
    }

    /// The whole seconds.
    pub fn as_secs(&self) -> (secs: u64)
        ensures
            secs == self@ / 1_000_000_000,
    {
        proof {
            use_type_invariant(&*self);
        }
        self.secs
    }

    /// The nanoseconds beyond the whole seconds.
    pub fn subsec_nanos(&self) -> (nanos: u32)
        ensures
            nanos == self@ % 1_000_000_000,
    {
        proof {
            use_type_invariant(&*self);
        }
        self.nanos
    }

    /// The time from an earlier moment to this one, or none where that is later.
    pub fn since(self, earlier: Elapsed) -> (elapsed: Elapsed)
        ensures
            elapsed@ == time_between(earlier@, self@),
    {
        proof {
            use_type_invariant(&self);
            use_type_invariant(&earlier);
        }
        if self.secs < earlier.secs || (self.secs == earlier.secs && self.nanos < earlier.nanos) {
            Elapsed { secs: 0, nanos: 0 }
        } else if self.nanos >= earlier.nanos {
            Elapsed { secs: self.secs - earlier.secs, nanos: self.nanos - earlier.nanos }
        } else {
            Elapsed {
                secs: self.secs - earlier.secs - 1,
                nanos: self.nanos + (NANOS_PER_SECOND - earlier.nanos),
            }
        }
    }
}

/// Format elapsed time as seconds or minutes and seconds.
pub fn format_elapsed(duration: Elapsed) -> (result: String)
    ensures
        result@ == elapsed_text(duration@),
{
    proof {
        use_type_invariant(&duration);
    }
    let total = duration.secs.saturating_add(if duration.nanos >= 500_000_000 {
        1
    } else {
        0
    });
    assert(total == rounded_seconds(duration@));
    let minutes = total / 60;
    let seconds = total % 60;
    let mut result = String::new();
    if minutes != 0 {
        text::append_decimal(&mut result, minutes);
        result.append("m ");
    }
    text::append_decimal(&mut result, seconds);
    result.append("s");
    assert(result@ =~= elapsed_text(duration@));
    result
}

/// The latest lines of streamed reasoning, wrapped to a column limit.
#[derive(Debug)]
pub struct ThinkingPreview {
    column_limit: usize,
    completed_lines: Vec<String>,
    current_line: String,
}

/// What a [`ThinkingPreview`] holds.
pub ghost struct PreviewView {
    pub column_limit: int,
    pub completed: Seq<Seq<char>>,
    pub current: Seq<char>,
}

impl View for ThinkingPreview {
    type V = PreviewView;

    closed spec fn view(&self) -> PreviewView {
        PreviewView {
            column_limit: self.column_limit as int,
            completed: text::texts(self.completed_lines@),
            current: self.current_line@,
        }
    }
}

/// The last lines, at most as many as the preview shows.
pub open spec fn latest(lines: Seq<Seq<char>>) -> Seq<Seq<char>> {
    if lines.len() > THINKING_PREVIEW_LINES {
        lines.skip(lines.len() - THINKING_PREVIEW_LINES)
    } else {
        lines
    }
}

/// A preview whose current line is complete.
pub open spec fn line_completed(preview: PreviewView) -> PreviewView {
    PreviewView {
        column_limit: preview.column_limit,
        completed: latest(preview.completed.push(preview.current)),
        current: seq![],
    }
}

/// A preview after one more character.
pub open spec fn character_pushed(preview: PreviewView, character: char) -> PreviewView {
    if character == '\r' {
        preview
    } else if character == '\n' {
        line_completed(preview)
    } else {
        let longer = PreviewView { current: preview.current.push(character), ..preview };
        if longer.current.len() == longer.column_limit {
            line_completed(longer)
        } else {
            longer
        }
    }
}

/// A preview after a fragment.
pub open spec fn fragment_pushed(preview: PreviewView, fragment: Seq<char>) -> PreviewView
    decreases fragment.len(),
{
    if fragment.len() == 0 {
        preview
    } else {
        character_pushed(fragment_pushed(preview, fragment.drop_last()), fragment.last())
    }
}

/// A preview at the end of the reasoning.
pub open spec fn preview_finished(preview: PreviewView) -> PreviewView {
    if preview.current.len() > 0 {
        line_completed(preview)
    } else {
        preview
    }
}

/// The lines that a preview shows.
pub open spec fn visible(preview: PreviewView) -> Seq<Seq<char>> {
    if preview.current.len() > 0 {
        latest(preview.completed.push(preview.current))
    } else {
        latest(preview.completed)
    }
}

impl ThinkingPreview {
    #[verifier::type_invariant]
    closed spec fn is_bounded(self) -> bool {
        self.completed_lines@.len() <= THINKING_PREVIEW_LINES
    }

    /// Create an empty preview with a column limit.
    pub fn new(column_limit: usize) -> (preview: ThinkingPreview)
        ensures
            preview@ == (PreviewView {
                column_limit: column_limit as int,
                completed: seq![],
                current: seq![],
            }),
    {
        let preview = ThinkingPreview {
            column_limit,
            completed_lines: Vec::new(),
            current_line: String::new(),
        };
        assert(preview@.completed =~= seq![]);
        assert(preview@.current =~= seq![]);
        preview
    }

    /// Add streamed text and return visible lines.
    pub fn push(&mut self, fragment: &str) -> (lines: Vec<String>)
        ensures
            final(self)@ == fragment_pushed(old(self)@, fragment@),
            text::texts(lines@) == visible(final(self)@),
            lines@.len() <= THINKING_PREVIEW_LINES,
    {
        let chars = text::chars_of(fragment);
        let ghost start = self@;
        for i in 0..chars.len()
            invariant
                chars@ == fragment@,
                self@ == fragment_pushed(start, fragment@.take(i as int)),
        {
            assert(fragment@.take(i + 1).drop_last() =~= fragment@.take(i as int));
            assert(fragment@.take(i + 1).last() == chars@[i as int]);
            self.push_character(chars[i]);
        }
        assert(fragment@.take(fragment@.len() as int) =~= fragment@);
        self.visible_lines()
    }

    /// Add one character.
    fn push_character(&mut self, character: char)
        ensures
            final(self)@ == character_pushed(old(self)@, character),
    {
        if character == '\r' {
            return ;
        }
        if character == '\n' {
            self.complete_current_line();
            return ;
        }
        proof {
            use_type_invariant(&*self);
        }
        let mut line = self.current_line.clone();
        line.push(character);
        self.current_line = line;
        if text::chars_of(&self.current_line).len() == self.column_limit {
            self.complete_current_line();
        }
    }

    /// Flush the current line and return visible lines.
    pub fn finish(&mut self) -> (lines: Vec<String>)
        ensures
            final(self)@ == preview_finished(old(self)@),
            text::texts(lines@) == visible(final(self)@),
            lines@.len() <= THINKING_PREVIEW_LINES,
    {
        if text::chars_of(&self.current_line).len() > 0 {
            self.complete_current_line();
        }
        self.visible_lines()
    }

    /// Move the current line into the bounded history.
    fn complete_current_line(&mut self)
        ensures
            final(self)@ == line_completed(old(self)@),
    {
        proof {
            use_type_invariant(&*self);
        }
        let ghost before = text::texts(self.completed_lines@);
        let first = if self.completed_lines.len() == THINKING_PREVIEW_LINES {
            1
        } else {
            0
        };
        let mut lines: Vec<String> = Vec::new();
        assert(text::texts(lines@) =~= seq![]);
        for i in first..self.completed_lines.len()
            invariant
                before == text::texts(self.completed_lines@),
                first <= before.len(),
                text::texts(lines@) == before.subrange(first as int, i as int),
        {
            let line = self.completed_lines[i].clone();
            proof {
                text::lemma_texts_push(lines@, line);
            }
            lines.push(line);
            assert(text::texts(lines@) =~= before.subrange(first as int, i + 1));
        }
        let current = self.current_line.clone();
        proof {
            text::lemma_texts_push(lines@, current);
        }
        lines.push(current);
        assert(text::texts(lines@) =~= latest(before.push(current@)));
        self.completed_lines = lines;
        self.current_line = String::new();
        assert(self.current_line@ =~= seq![]);
    }

    /// Return only the most recent visible lines.
    fn visible_lines(&self) -> (lines: Vec<String>)
        ensures
            text::texts(lines@) == visible(self@),
            lines@.len() <= THINKING_PREVIEW_LINES,
    {
        proof {
            use_type_invariant(&*self);
        }
        let ghost known = text::texts(self.completed_lines@);
        let unfinished = text::chars_of(&self.current_line).len() > 0;
        let first = if unfinished && self.completed_lines.len() == THINKING_PREVIEW_LINES {
            1
        } else {
            0
        };
        let mut lines: Vec<String> = Vec::new();
        assert(text::texts(lines@) =~= seq![]);
        for i in first..self.completed_lines.len()
            invariant
                known == text::texts(self.completed_lines@),
                first <= known.len(),
                text::texts(lines@) == known.subrange(first as int, i as int),
        {
            let line = self.completed_lines[i].clone();
            proof {
                text::lemma_texts_push(lines@, line);
            }
            lines.push(line);
            assert(text::texts(lines@) =~= known.subrange(first as int, i + 1));
        }
        if unfinished {
            let current = self.current_line.clone();
            proof {
                text::lemma_texts_push(lines@, current);
            }
            lines.push(current);
        }
        assert(text::texts(lines@) =~= visible(self@));
        assert(lines@.len() == text::texts(lines@).len());
        lines
    }
}

/// How streamed reasoning is cut into fragments makes no difference to its preview.
pub proof fn lemma_fragments_compose(preview: PreviewView, first: Seq<char>, second: Seq<char>)
    ensures
        fragment_pushed(fragment_pushed(preview, first), second) == fragment_pushed(
            preview,
            first + second,
        ),
    decreases second.len(),
{
    if second.len() == 0 {
        assert(first + second =~= first);
    } else {
        lemma_fragments_compose(preview, first, second.drop_last());
        assert((first + second).drop_last() =~= first + second.drop_last());
    }
}

/// A preview never shows more than the latest lines, whatever is streamed.
pub proof fn lemma_preview_is_bounded(preview: PreviewView)
    ensures
        visible(preview).len() <= THINKING_PREVIEW_LINES,
        visible(preview_finished(preview)).len() <= THINKING_PREVIEW_LINES,
{
}

/// Whether every line of a preview fits into its column limit.
pub open spec fn fits_columns(preview: PreviewView) -> bool {
    &&& preview.current.len() < preview.column_limit
    &&& forall|i: int|
        0 <= i < preview.completed.len() ==> (#[trigger] preview.completed[i]).len()
            <= preview.column_limit
}

proof fn lemma_completed_lines_fit(preview: PreviewView)
    requires
        preview.column_limit > 0,
        preview.current.len() <= preview.column_limit,
        forall|i: int|
            0 <= i < preview.completed.len() ==> (#[trigger] preview.completed[i]).len()
                <= preview.column_limit,
    ensures
        fits_columns(line_completed(preview)),
{
    let all = preview.completed.push(preview.current);
    let kept = line_completed(preview).completed;
    assert forall|i: int| 0 <= i < kept.len() implies (#[trigger] kept[i]).len()
        <= preview.column_limit by {
        let at = i + all.len() - kept.len();
        assert(kept[i] == all[at]);
        if at < preview.completed.len() {
            assert(all[at] == preview.completed[at]);
        }
    }
}

/// Whatever is streamed, no line of a preview grows beyond the column limit.
pub proof fn lemma_preview_lines_fit(preview: PreviewView, fragment: Seq<char>)
    requires
        fits_columns(preview),
    ensures
        fits_columns(fragment_pushed(preview, fragment)),
        fragment_pushed(preview, fragment).column_limit == preview.column_limit,
    decreases fragment.len(),
{
    if fragment.len() > 0 {
        lemma_preview_lines_fit(preview, fragment.drop_last());
        let before = fragment_pushed(preview, fragment.drop_last());
        let character = fragment.last();
        if character == '\n' {
            lemma_completed_lines_fit(before);
        } else if character != '\r' {
            let longer = PreviewView { current: before.current.push(character), ..before };
            if longer.current.len() == longer.column_limit {
                lemma_completed_lines_fit(longer);
            }
        }
    }
}

/// Finishing a preview of at most as many lines as are shown keeps what it shows.
pub proof fn lemma_finishing_keeps_visible_lines(preview: PreviewView)
    requires
        preview.completed.len() <= THINKING_PREVIEW_LINES,
    ensures
        visible(preview_finished(preview)) == visible(preview),
{
}

/// The width of the thinking preview on a terminal with the given columns.
pub open spec fn preview_columns(columns: Option<u16>) -> int {
    match columns {
        Some(columns) => if columns >= MINIMUM_COLUMNS {
            columns - TIMESTAMP_COLUMNS
        } else {
            THINKING_PREVIEW_FALLBACK_COLUMNS as int
        },
        None => THINKING_PREVIEW_FALLBACK_COLUMNS as int,
    }
}

/// Determine preview width from the connected terminal.
pub fn thinking_preview_columns(columns: Option<u16>) -> (result: usize)
    ensures
        result == preview_columns(columns),
{
    match columns {
        Some(columns) => {
            let columns = columns as usize;
            if columns >= MINIMUM_COLUMNS {
                columns - TIMESTAMP_COLUMNS
            } else {
                THINKING_PREVIEW_FALLBACK_COLUMNS
            }
        },
        None => THINKING_PREVIEW_FALLBACK_COLUMNS,
    }
}

/// Renders the lifecycle of a streamed model response on a [`Terminal`].
///
/// This owns display-specific streaming state, leaving callers to submit the request, to handle
/// the completed response and to write the text that each method returns. `now` is the moment at
/// which a method is called, and `clock` the time that timestamps show.
pub struct ChatProgress {
    terminal: Terminal,
    show_thinking: bool,
    spinner: Spinner,
    prompt_sent_at: Elapsed,
    thinking_started_at: Option<Elapsed>,
    generating_started_at: Option<Elapsed>,
    thinking_preview: ThinkingPreview,
    rendered_thinking_lines: usize,
}

/// What a [`ChatProgress`] holds.
pub ghost struct ProgressView {
    /// Terminal renderer.
    pub terminal: Terminal,
    /// Whether reasoning text is visible.
    pub show_thinking: bool,
    /// Spinner animation state.
    pub spinner: spinner::SpinnerView,
    /// Time the prompt was sent.
    pub prompt_sent_at: nat,
    /// Start of reasoning, if any.
    pub thinking_started_at: Option<nat>,
    /// Start of generation, if any.
    pub generating_started_at: Option<nat>,
    /// Bounded reasoning preview.
    pub thinking_preview: PreviewView,
    /// Number of currently rendered reasoning lines.
    pub rendered_thinking_lines: usize,
}

/// An optional moment in nanoseconds.
pub open spec fn optional_moment(moment: Option<Elapsed>) -> Option<nat> {
    match moment {
        Some(moment) => Some(moment@),
        None => None,
    }
}

impl View for ChatProgress {
    type V = ProgressView;

    closed spec fn view(&self) -> ProgressView {
        ProgressView {
            terminal: self.terminal,
            show_thinking: self.show_thinking,
            spinner: self.spinner@,
            prompt_sent_at: self.prompt_sent_at@,
            thinking_started_at: optional_moment(self.thinking_started_at),
            generating_started_at: optional_moment(self.generating_started_at),
            thinking_preview: self.thinking_preview@,
            rendered_thinking_lines: self.rendered_thinking_lines,
        }
    }
}

/// Dim text.
pub open spec fn neutral(content: Seq<char>) -> terminal::SegmentView {
    terminal::SegmentView { style: TextStyle::Neutral, content }
}

/// The frame of a spinner and what it stands for.
pub open spec fn spinner_segments(
    frames: spinner::SpinnerView,
    label: Seq<char>,
    elapsed: nat,
) -> Seq<terminal::SegmentView> {
    seq![neutral(frames.frames[frames.frame]@), neutral(label + elapsed_text(elapsed) + ")"@)]
}

/// What is written when a prompt is sent.
pub open spec fn sending_output(terminal: Terminal, clock: Seq<char>, model: Seq<char>) -> Seq<char> {
    terminal::if_progress(
        terminal,
        terminal::rendered_line(
            terminal,
            clock,
            seq![
                neutral("Sending prompt to "@),
                terminal::SegmentView { style: TextStyle::BoldNeutral, content: model },
            ],
        ) + terminal::rendered_line(terminal, clock, seq![neutral("Waiting for Ollama..."@)]),
    )
}

/// What is written when the response begins.
pub open spec fn responded(progress: ProgressView, now: nat, clock: Seq<char>) -> Seq<char> {
    terminal::completed_output(
        progress.terminal,
        clock,
        seq![
            neutral(
                "Ollama responded in "@ + elapsed_text(time_between(progress.prompt_sent_at, now)),
            ),
        ],
    )
}

/// The state after a fragment of reasoning, and what is written.
pub open spec fn thought(
    progress: ProgressView,
    fragment: Seq<char>,
    now: nat,
    clock: Seq<char>,
) -> (ProgressView, Seq<char>) {
    let first = progress.thinking_started_at is None;
    let started_at = match progress.thinking_started_at {
        Some(started_at) => started_at,
        None => now,
    };
    let segments = spinner_segments(
        progress.spinner,
        " Thinking ("@,
        time_between(started_at, now),
    );
    let begun = ProgressView {
        spinner: spinner::advanced(progress.spinner),
        thinking_started_at: Some(started_at),
        ..progress
    };
    if progress.show_thinking {
        let preview = fragment_pushed(progress.thinking_preview, fragment);
        let shown = progress.terminal.progress && progress.terminal.interactive;
        (
            ProgressView {
                thinking_preview: preview,
                rendered_thinking_lines: if shown {
                    visible(preview).len() as usize
                } else {
                    0
                },
                ..begun
            },
            terminal::thinking_output(
                progress.terminal,
                clock,
                first,
                progress.rendered_thinking_lines,
                segments,
                visible(preview),
            ),
        )
    } else {
        (begun, terminal::spinner_output(progress.terminal, clock, first, segments))
    }
}

/// The state after the reasoning phase, and what is written.
pub open spec fn thinking_finished(
    progress: ProgressView,
    label: Seq<char>,
    started_at: nat,
    now: nat,
    clock: Seq<char>,
) -> (ProgressView, Seq<char>) {
    let completion = seq![
        neutral(label + " "@ + elapsed_text(time_between(started_at, now))),
    ];
    if progress.show_thinking {
        let preview = preview_finished(progress.thinking_preview);
        (
            ProgressView { thinking_preview: preview, ..progress },
            terminal::finished_output(
                progress.terminal,
                clock,
                progress.rendered_thinking_lines,
                visible(preview),
                completion,
            ),
        )
    } else {
        (progress, terminal::completed_output(progress.terminal, clock, completion))
    }
}

/// The state after a fragment of the answer, and what is written.
pub open spec fn generated(progress: ProgressView, now: nat, clock: Seq<char>) -> (
    ProgressView,
    Seq<char>,
) {
    let (before, ended) = match (progress.generating_started_at, progress.thinking_started_at) {
        (None, Some(started_at)) => thinking_finished(
            progress,
            "Thought for"@,
            started_at,
            now,
            clock,
        ),
        _ => (progress, seq![]),
    };
    let first = progress.generating_started_at is None;
    let started_at = match progress.generating_started_at {
        Some(started_at) => started_at,
        None => now,
    };
    (
        ProgressView {
            spinner: spinner::advanced(before.spinner),
            generating_started_at: Some(started_at),
            ..before
        },
        ended + terminal::spinner_output(
            progress.terminal,
            clock,
            first,
            spinner_segments(before.spinner, " Generating ("@, time_between(started_at, now)),
        ),
    )
}

/// The state after an event, and what is written.
pub open spec fn handled(
    progress: ProgressView,
    event: ChatEvent,
    now: nat,
    clock: Seq<char>,
) -> (ProgressView, Seq<char>) {
    match event {
        ChatEvent::ResponseStarted => (progress, responded(progress, now, clock)),
        ChatEvent::Thinking(fragment) => thought(progress, fragment@, now, clock),
        ChatEvent::Generating(_) => generated(progress, now, clock),
    }
}

/// The state after the whole response, and what is written.
pub open spec fn response_finished(
    progress: ProgressView,
    response: ChatResponse,
    now: nat,
    clock: Seq<char>,
) -> (ProgressView, Seq<char>) {
    match (progress.generating_started_at, progress.thinking_started_at) {
        (Some(started_at), _) => (
            progress,
            terminal::completed_output(
                progress.terminal,
                clock,
                seq![
                    neutral(
                        "Generation done in "@ + elapsed_text(time_between(started_at, now))
                            + " · "@ + text::decimal(chat::all_tokens(response))
                            + " total tokens"@,
                    ),
                ],
            ),
        ),
        (None, Some(started_at)) => thinking_finished(
            progress,
            "Thinking done"@,
            started_at,
            now,
            clock,
        ),
        (None, None) => (progress, seq![]),
    }
}

impl ChatProgress {
    /// Start displaying progress for a prompt being sent to `model`.
    #[must_use]
    pub fn new(
        terminal: Terminal,
        model: &str,
        show_thinking: bool,
        columns: Option<u16>,
        now: Elapsed,
        clock: &str,
    ) -> (result: (ChatProgress, String))
        ensures
            result.0@ == (ProgressView {
                terminal,
                show_thinking,
                spinner: spinner::SpinnerView { frame: 0, frames: Spinner::BRAILLE_SPIN@ },
                prompt_sent_at: now@,
                thinking_started_at: None,
                generating_started_at: None,
                thinking_preview: PreviewView {
                    column_limit: preview_columns(columns),
                    completed: seq![],
                    current: seq![],
                },
                rendered_thinking_lines: 0,
            }),
            result.1@ == sending_output(terminal, clock@, model@),
    {
        let segments: Vec<Segment<'_>> = vec![
            Segment::text(TextStyle::Neutral, "Sending prompt to "),
            Segment::text(TextStyle::BoldNeutral, model),
        ];
        assert(terminal::segment_views(segments@) =~= seq![
            neutral("Sending prompt to "@),
            terminal::SegmentView { style: TextStyle::BoldNeutral, content: model@ },
        ]);
        let mut output = terminal.status_segments(clock, &segments);
        output.append(&terminal.status(clock, "Waiting for Ollama..."));
        assert(output@ =~= sending_output(terminal, clock@, model@));
        let progress = ChatProgress {
            terminal,
            show_thinking,
            spinner: Spinner::default(),
            prompt_sent_at: now,
            thinking_started_at: None,
            generating_started_at: None,
            thinking_preview: ThinkingPreview::new(thinking_preview_columns(columns)),
            rendered_thinking_lines: 0,
        };
        (progress, output)
    }

    /// Render one event from a streaming chat response.
    pub fn handle(&mut self, event: ChatEvent, now: Elapsed, clock: &str) -> (output: String)
        ensures
            (final(self)@, output@) == handled(old(self)@, event, now@, clock@),
    {
        match event {
            ChatEvent::ResponseStarted => self.response_started(now, clock),
            ChatEvent::Thinking(thinking) => self.thinking(&thinking, now, clock),
            ChatEvent::Generating(_) => self.generating(now, clock),
        }
    }

    /// Finish the active display state using completed response metrics.
    pub fn finish(&mut self, response: &ChatResponse, now: Elapsed, clock: &str) -> (output: String)
        ensures
            (final(self)@, output@) == response_finished(old(self)@, *response, now@, clock@),
    {
        match (self.generating_started_at, self.thinking_started_at) {
            (Some(started_at), _) => {
                let mut label = "Generation done in ".to_owned();
                label.append(&format_elapsed(now.since(started_at)));
                label.append(" · ");
                text::append_decimal(&mut label, response.total_tokens());
                label.append(" total tokens");
                self.completed(clock, &label)
            },
            (None, Some(started_at)) => {
                self.finish_thinking("Thinking done", started_at, now, clock)
            },
            (None, None) => {
                let output = String::new();
                assert(output@ =~= seq![]);
                output
            },
        }
    }

    /// Render a completion line.
    fn completed(&self, clock: &str, label: &str) -> (output: String)
        ensures
            output@ == terminal::completed_output(
                self@.terminal,
                clock@,
                seq![neutral(label@)],
            ),
    {
        let segments: Vec<Segment<'_>> = vec![Segment::text(TextStyle::Neutral, label)];
        assert(terminal::segment_views(segments@) =~= seq![neutral(label@)]);
        self.terminal.complete(clock, &segments)
    }

    /// Render the response-started transition.
    fn response_started(&self, now: Elapsed, clock: &str) -> (output: String)
        ensures
            output@ == responded(self@, now@, clock@),
    {
        let mut label = "Ollama responded in ".to_owned();
        label.append(&format_elapsed(now.since(self.prompt_sent_at)));
        self.completed(clock, &label)
    }

    /// Render a reasoning fragment.
    fn thinking(&mut self, thinking: &str, now: Elapsed, clock: &str) -> (output: String)
        ensures
            (final(self)@, output@) == thought(old(self)@, thinking@, now@, clock@),
    {
        let first = self.thinking_started_at.is_none();
        let started_at = match self.thinking_started_at {
            Some(started_at) => started_at,
            None => now,
        };
        self.thinking_started_at = Some(started_at);
        let mut label = " Thinking (".to_owned();
        label.append(&format_elapsed(now.since(started_at)));
        label.append(")");
        let frame = self.spinner.next_frame();
        let segments: Vec<Segment<'_>> = vec![
            Segment::spinner(TextStyle::Neutral, frame),
            Segment::text(TextStyle::Neutral, &label),
        ];
        assert(terminal::segment_views(segments@) =~= spinner_segments(
            old(self)@.spinner,
            " Thinking ("@,
            time_between(started_at@, now@),
        ));
        if self.show_thinking {
            let lines = self.thinking_preview.push(thinking);
            let (output, rendered) = self.terminal.thinking(
                clock,
                first,
                self.rendered_thinking_lines,
                &segments,
                &lines,
            );
            assert(lines@.len() == text::texts(lines@).len());
            self.rendered_thinking_lines = rendered;
            output
        } else {
            self.terminal.spinner(clock, first, &segments)
        }
    }

    /// Render the generation transition and spinner.
    fn generating(&mut self, now: Elapsed, clock: &str) -> (output: String)
        ensures
            (final(self)@, output@) == generated(old(self)@, now@, clock@),
    {
        let mut output = String::new();
        assert(output@ =~= seq![]);
        let first = self.generating_started_at.is_none();
        if first {
            if let Some(started_at) = self.thinking_started_at {
                output = self.finish_thinking("Thought for", started_at, now, clock);
            }
        }
        let ghost before = self@;
        let started_at = match self.generating_started_at {
            Some(started_at) => started_at,
            None => now,
        };
        self.generating_started_at = Some(started_at);
        let mut label = " Generating (".to_owned();
        label.append(&format_elapsed(now.since(started_at)));
        label.append(")");
        let frame = self.spinner.next_frame();
        let segments: Vec<Segment<'_>> = vec![
            Segment::spinner(TextStyle::Neutral, frame),
            Segment::text(TextStyle::Neutral, &label),
        ];
        assert(terminal::segment_views(segments@) =~= spinner_segments(
            before.spinner,
            " Generating ("@,
            time_between(started_at@, now@),
        ));
        output.append(&self.terminal.spinner(clock, first, &segments));
        output
    }

    /// Complete the reasoning phase.
    fn finish_thinking(&mut self, label: &str, started_at: Elapsed, now: Elapsed, clock: &str) -> (output:
        String)
        ensures
            (final(self)@, output@) == thinking_finished(
                old(self)@,
                label@,
                started_at@,
                now@,
                clock@,
            ),
            final(self)@.generating_started_at == old(self)@.generating_started_at,
    {
        let mut completion = label.to_owned();
        completion.append(" ");
        completion.append(&format_elapsed(now.since(started_at)));
        if self.show_thinking {
            let lines = self.thinking_preview.finish();
            let segments: Vec<Segment<'_>> = vec![
                Segment::text(TextStyle::Neutral, &completion),
            ];
            assert(terminal::segment_views(segments@) =~= seq![neutral(completion@)]);
            self.terminal.finish_thinking(
                clock,
                self.rendered_thinking_lines,
                &lines,
                &segments,
            )
        } else {
            self.completed(clock, &completion)
        }
    }
}

/// A time is shown to the nearest second, as seconds below a minute and as minutes and seconds from
/// one on.
pub proof fn lemma_times_are_shown_to_the_nearest_second(nanos: nat, minutes: nat, seconds: nat)
    requires
        rounded_seconds(nanos) < u64::MAX,
    ensures
        rounded_seconds(nanos) * 1_000_000_000 <= nanos + 500_000_000,
        nanos < rounded_seconds(nanos) * 1_000_000_000 + 500_000_000,
        seconds < 60 && minutes * 60 + seconds == rounded_seconds(nanos) ==> elapsed_text(nanos)
            == if minutes == 0 {
            text::decimal(seconds) + "s"@
        } else {
            text::decimal(minutes) + "m "@ + text::decimal(seconds) + "s"@
        },
{
}

/// Only the last five lines are kept, in order.
pub proof fn lemma_the_latest_lines_are_kept(lines: Seq<Seq<char>>)
    ensures
        lines.len() <= 5 ==> latest(lines) == lines,
        lines.len() > 5 ==> latest(lines).len() == 5,
        text::ends_with(lines, latest(lines)),
{
    assert(lines.skip(0) =~= lines);
    assert(lines.skip(lines.len() - latest(lines).len()) =~= latest(lines));
}

/// Text without line breaks that does not fill the line is added to it as it is.
pub proof fn lemma_text_within_a_line_is_kept(preview: PreviewView, fragment: Seq<char>)
    requires
        !fragment.contains('\n'),
        !fragment.contains('\r'),
        preview.current.len() + fragment.len() < preview.column_limit,
    ensures
        fragment_pushed(preview, fragment) == (PreviewView {
            current: preview.current + fragment,
            ..preview
        }),
    decreases fragment.len(),
{
    if fragment.len() == 0 {
        assert(preview.current + fragment =~= preview.current);
    } else {
        let rest = fragment.drop_last();
        assert forall|i: int| 0 <= i < rest.len() implies rest[i] != '\n' && rest[i] != '\r' by {
            assert(fragment[i] == rest[i]);
        }
        lemma_text_within_a_line_is_kept(preview, rest);
        assert(fragment[fragment.len() - 1] == fragment.last());
        assert((preview.current + rest).push(fragment.last()) =~= preview.current + fragment);
    }
}

/// A line feed completes the line; so does the character that fills it. A carriage return counts for
/// nothing.
pub proof fn lemma_lines_are_completed(preview: PreviewView, character: char)
    ensures
        character == '\r' ==> character_pushed(preview, character) == preview,
        character == '\n' ==> character_pushed(preview, character).current.len() == 0
            && character_pushed(preview, character).completed.last() == preview.current,
        character != '\r' && character != '\n' && preview.current.len() + 1 == preview.column_limit
            ==> character_pushed(preview, character).current.len() == 0 && character_pushed(
            preview,
            character,
        ).completed.last() == preview.current.push(character),
        preview.current.len() > 0 ==> visible(preview).last() == preview.current,
{
}

/// Lines are as wide as the terminal leaves them beside a timestamp, or 72 characters where that is
/// not known or too narrow.
pub proof fn lemma_lines_fit_beside_the_timestamp(columns: Option<u16>)
    ensures
        columns matches Some(width) && width >= 20 ==> preview_columns(columns) + 11
            == columns->0,
        columns is None || columns->0 < 20 ==> preview_columns(columns) == 72,
{
}

/// A phase starts with its first event and keeps that start; the events of one leave the start of
/// the other as it is.
pub proof fn lemma_phases_start_once(
    progress: ProgressView,
    event: ChatEvent,
    now: nat,
    clock: Seq<char>,
)
    ensures
        ({
            let after = handled(progress, event, now, clock).0;
            &&& after.prompt_sent_at == progress.prompt_sent_at
            &&& progress.thinking_started_at is Some ==> after.thinking_started_at
                == progress.thinking_started_at
            &&& progress.generating_started_at is Some ==> after.generating_started_at
                == progress.generating_started_at
            &&& event is Thinking && progress.thinking_started_at is None
                ==> after.thinking_started_at == Some(now)
            &&& event is Generating && progress.generating_started_at is None
                ==> after.generating_started_at == Some(now)
            &&& event !is Thinking ==> after.thinking_started_at == progress.thinking_started_at
            &&& event !is Generating ==> after.generating_started_at
                == progress.generating_started_at
        }),
{
}

} // verus!
