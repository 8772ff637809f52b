//! Styled diagnostic lines.

use vstd::prelude::*;
use vstd::string::StringExecFns;

use crate::text;

verus! {

/// The visual treatment for one diagnostic segment.
#[derive(Debug, Clone, Copy, PartialEq, Eq, Structural)]
pub enum TextStyle {
    /// Use faint dark-gray text for timestamps.
    Timestamp,
    /// Use dim diagnostic text.
    Neutral,
    /// Use bold, dim diagnostic text.
    BoldNeutral,
    /// Use green text.
    Green,
    /// Use red text.
    Red,
    /// Use dim red text.
    DimRed,
    /// Use dim slate-blue text for model reasoning.
    Thinking,
    /// Use orange text.
    Orange,
    /// Use red error text.
    Error,
}

/// A styled text fragment or a spinner frame within a diagnostic line.
#[derive(Debug, Clone, Copy)]
pub enum Segment<'a> {
    /// Styled text.
    Text {
        /// Text style.
        style: TextStyle,
        /// Content.
        content: &'a str,
    },
    /// Styled spinner frame.
    Spinner {
        /// Frame style.
        style: TextStyle,
        /// Frame text.
        frame: &'a str,
    },
}

/// What a segment shows, and how.
pub ghost struct SegmentView {
    pub style: TextStyle,
    pub content: Seq<char>,
}

/// What a segment shows, and how.
pub open spec fn segment_view(segment: Segment<'_>) -> SegmentView {
    match segment {
        Segment::Text { style, content } => SegmentView { style, content: content@ },
        Segment::Spinner { style, frame } => SegmentView { style, content: frame@ },
    }
}

/// What segments show, and how.
pub open spec fn segment_views(segments: Seq<Segment<'_>>) -> Seq<SegmentView> {
    segments.map_values(|segment: Segment<'_>| segment_view(segment))
}

impl<'a> Segment<'a> {
    /// Construct a styled text segment.
    #[must_use]
    pub fn text(style: TextStyle, content: &'a str) -> (segment: Segment<'a>)
        ensures
            segment == (Segment::Text { style, content }),
    {
        Segment::Text { style, content }
    }

    /// Construct a styled spinner segment.
    #[must_use]
    pub fn spinner(style: TextStyle, frame: &'a str) -> (segment: Segment<'a>)
        ensures
            segment == (Segment::Spinner { style, frame }),
    {
        Segment::Spinner { style, frame }
    }
}

/// Styled terminal output reserved for diagnostics on stderr.
///
/// Each method returns the text to write. `clock` is the time that a timestamp shows.
#[derive(Debug, Clone, Copy, PartialEq, Eq, Structural)]
pub struct Terminal {
    /// Whether ANSI colors are enabled.
    pub color: bool,
    /// Whether stderr is interactive.
    pub interactive: bool,
    /// Whether progress output is enabled.
    pub progress: bool,
    /// Whether timestamps are shown.
    pub timestamp: bool,
}

/// The ANSI code for a text style.
pub open spec fn code(style: TextStyle) -> Seq<char> {
    match style {
        TextStyle::Timestamp => "\x1b[2;38;5;240m"@,
        TextStyle::Neutral => "\x1b[2;39m"@,
        TextStyle::BoldNeutral => "\x1b[1;2;39m"@,
        TextStyle::Green => "\x1b[32m"@,
        TextStyle::Red => "\x1b[31m"@,
        TextStyle::DimRed => "\x1b[2;31m"@,
        TextStyle::Thinking => "\x1b[2;38;5;103m"@,
        TextStyle::Orange => "\x1b[38;5;208m"@,
        TextStyle::Error => "\x1b[31m"@,
    }
}

/// Text that resets any style, sets its own and resets it again, where colors are enabled.
pub open spec fn styled(color: bool, style: TextStyle, content: Seq<char>) -> Seq<char> {
    if color {
        Terminal::CLEAR@ + code(style) + content + Terminal::CLEAR@
    } else {
        content
    }
}

/// Styled segments, one after the other.
pub open spec fn rendered(color: bool, segments: Seq<SegmentView>) -> Seq<char>
    decreases segments.len(),
{
    if segments.len() == 0 {
        seq![]
    } else {
        rendered(color, segments.drop_last()) + styled(
            color,
            segments.last().style,
            segments.last().content,
        )
    }
}

/// The timestamp in front of a line, where timestamps are shown.
pub open spec fn stamp(terminal: Terminal, clock: Seq<char>) -> Seq<char> {
    if terminal.timestamp {
        styled(terminal.color, TextStyle::Timestamp, "["@ + clock + "] "@)
    } else {
        seq![]
    }
}

/// A line of segments, with its timestamp.
pub open spec fn rendered_line(terminal: Terminal, clock: Seq<char>, segments: Seq<SegmentView>) -> Seq<
    char,
> {
    stamp(terminal, clock) + rendered(terminal.color, segments) + "\n"@
}

/// A line that replaces the previous one, or follows it.
pub open spec fn placed_line(
    terminal: Terminal,
    clock: Seq<char>,
    replace_previous: bool,
    segments: Seq<SegmentView>,
) -> Seq<char> {
    (if replace_previous {
        Terminal::REPLACE@
    } else {
        seq![]
    }) + rendered_line(terminal, clock, segments)
}

/// Text that is written where progress output is enabled.
pub open spec fn if_progress(terminal: Terminal, output: Seq<char>) -> Seq<char> {
    if terminal.progress {
        output
    } else {
        seq![]
    }
}

/// What draws a spinner line, or redraws it: without an interactive terminal it is written once.
pub open spec fn spinner_output(
    terminal: Terminal,
    clock: Seq<char>,
    first: bool,
    segments: Seq<SegmentView>,
) -> Seq<char> {
    if terminal.progress && (terminal.interactive || first) {
        placed_line(terminal, clock, terminal.interactive && !first, segments)
    } else {
        seq![]
    }
}

/// What replaces a spinner line by a completion.
pub open spec fn completed_output(
    terminal: Terminal,
    clock: Seq<char>,
    segments: Seq<SegmentView>,
) -> Seq<char> {
    if_progress(terminal, placed_line(terminal, clock, terminal.interactive, segments))
}

/// The escape sequence that moves the cursor up.
pub open spec fn cursor_up(rows: nat) -> Seq<char> {
    "\x1b["@ + text::decimal(rows) + "A"@
}

/// One more row, unless that is more than a `usize` holds.
pub open spec fn one_more(rows: usize) -> nat {
    if rows == usize::MAX {
        rows as nat
    } else {
        (rows + 1) as nat
    }
}

/// One cleared row of the thinking preview, with the reasoning line where there is one.
pub open spec fn thinking_row(
    terminal: Terminal,
    clock: Seq<char>,
    lines: Seq<Seq<char>>,
    row: int,
) -> Seq<char> {
    Terminal::CLEAR_LINE@ + (if row < lines.len() {
        stamp(terminal, clock) + styled(terminal.color, TextStyle::Thinking, lines[row])
    } else {
        seq![]
    }) + "\n"@
}

/// The first rows of the thinking preview.
pub open spec fn thinking_rows(
    terminal: Terminal,
    clock: Seq<char>,
    lines: Seq<Seq<char>>,
    rows: nat,
) -> Seq<char>
    decreases rows,
{
    if rows == 0 {
        seq![]
    } else {
        thinking_rows(terminal, clock, lines, (rows - 1) as nat) + thinking_row(
            terminal,
            clock,
            lines,
            rows - 1,
        )
    }
}

/// The thinking preview over the rows of the previous one; the cursor ends below the last line.
pub open spec fn thinking_block(
    terminal: Terminal,
    clock: Seq<char>,
    previous_lines: nat,
    lines: Seq<Seq<char>>,
) -> Seq<char> {
    if previous_lines > lines.len() {
        thinking_rows(terminal, clock, lines, previous_lines) + cursor_up(
            (previous_lines - lines.len()) as nat,
        )
    } else {
        thinking_rows(terminal, clock, lines, lines.len())
    }
}

/// What redraws a spinner above reasoning lines.
pub open spec fn thinking_output(
    terminal: Terminal,
    clock: Seq<char>,
    first: bool,
    previous_lines: usize,
    spinner: Seq<SegmentView>,
    lines: Seq<Seq<char>>,
) -> Seq<char> {
    if !terminal.progress {
        seq![]
    } else if !terminal.interactive {
        if first {
            rendered_line(terminal, clock, spinner)
        } else {
            seq![]
        }
    } else {
        (if first {
            seq![]
        } else {
            cursor_up(one_more(previous_lines))
        }) + Terminal::CLEAR_LINE@ + rendered_line(terminal, clock, spinner) + thinking_block(
            terminal,
            clock,
            previous_lines as nat,
            lines,
        )
    }
}

/// What replaces a spinner above reasoning lines by those lines and a completion.
pub open spec fn finished_output(
    terminal: Terminal,
    clock: Seq<char>,
    previous_lines: usize,
    lines: Seq<Seq<char>>,
    completion: Seq<SegmentView>,
) -> Seq<char> {
    if !terminal.progress {
        seq![]
    } else if !terminal.interactive {
        rendered_line(terminal, clock, completion)
    } else {
        cursor_up(one_more(previous_lines)) + thinking_block(
            terminal,
            clock,
            one_more(previous_lines),
            lines,
        ) + rendered_line(terminal, clock, completion)
    }
}

/// How many cells of a progress bar are filled: as many of all as the value is of the total.
pub open spec fn filled_cells(value: nat, total: nat, width: nat) -> nat {
    if total == 0 {
        0
    } else if value * width / total > width {
        width
    } else {
        value * width / total
    }
}

/// A character, repeated.
pub open spec fn cells(character: char, count: nat) -> Seq<char> {
    Seq::new(count, |i: int| character)
}

/// A proportional progress bar.
pub open spec fn bar(value: nat, total: nat, width: nat) -> Seq<char> {
    cells('█', filled_cells(value, total, width)) + cells(
        '░',
        (width - filled_cells(value, total, width)) as nat,
    )
}

impl Terminal {
    /// ANSI reset sequence.
    pub const CLEAR: &'static str = "\x1b[0m";

    /// The sequence that clears the line of the cursor.
    pub const CLEAR_LINE: &'static str = "\r\x1b[K";

    /// The sequence that clears the line above the cursor.
    pub const REPLACE: &'static str = "\x1b[A\r\x1b[K";

    /// Create terminal output, optionally decorated with ANSI colors and timestamps.
    #[must_use]
    pub fn new(color: bool, timestamp: bool, interactive: bool) -> (terminal: Terminal)
        ensures
            terminal == (Terminal { color, interactive, progress: true, timestamp }),
    {
        Terminal { color, interactive, progress: true, timestamp }
    }

    /// Enable or disable diagnostic progress output while retaining error output.
    #[must_use]
    pub fn with_progress(self, progress: bool) -> (terminal: Terminal)
        ensures
            terminal == (Terminal { progress, ..self }),
    {
        Terminal { progress, ..self }
    }

    /// The ANSI code for a text style.
    pub fn style_code(style: TextStyle) -> (result: &'static str)
        ensures
            result@ == code(style),
    {
        match style {
            TextStyle::Timestamp => "\x1b[2;38;5;240m",
            TextStyle::Neutral => "\x1b[2;39m",
            TextStyle::BoldNeutral => "\x1b[1;2;39m",
            TextStyle::Green => "\x1b[32m",
            TextStyle::Red => "\x1b[31m",
            TextStyle::DimRed => "\x1b[2;31m",
            TextStyle::Thinking => "\x1b[2;38;5;103m",
            TextStyle::Orange => "\x1b[38;5;208m",
            TextStyle::Error => "\x1b[31m",
        }
    }

    /// Append styled text.
    fn write_styled(self, output: &mut String, style: TextStyle, content: &str)
        ensures
            final(output)@ == old(output)@ + styled(self.color, style, content@),
    {
        let ghost start = output@;
        if self.color {
            output.append(Self::CLEAR);
            output.append(Self::style_code(style));
        }
        output.append(content);
        if self.color {
            output.append(Self::CLEAR);
        }
        assert(output@ =~= start + styled(self.color, style, content@));
    }

    /// Append styled segments.
    pub fn write_segments(self, output: &mut String, segments: &[Segment<'_>])
        ensures
            final(output)@ == old(output)@ + rendered(self.color, segment_views(segments@)),
    {
        let ghost start = output@;
        let ghost views = segment_views(segments@);
        assert(output@ =~= start + rendered(self.color, views.take(0)));
        for i in 0..segments.len()
            invariant
                views == segment_views(segments@),
                output@ == start + rendered(self.color, views.take(i as int)),
        {
            assert(views.take(i + 1).drop_last() =~= views.take(i as int));
            assert(views.take(i + 1).last() == segment_view(segments@[i as int]));
            let ghost before = rendered(self.color, views.take(i as int));
            match segments[i] {
                Segment::Text { style, content } => {
                    self.write_styled(output, style, content);
                    assert(output@ =~= start + (before + styled(self.color, style, content@)));
                },
                Segment::Spinner { style, frame } => {
                    self.write_styled(output, style, frame);
                    assert(output@ =~= start + (before + styled(self.color, style, frame@)));
                },
            }
        }
        assert(views.take(views.len() as int) =~= views);
    }

    /// Append the optional timestamp.
    fn write_timestamp(self, output: &mut String, clock: &str)
        ensures
            final(output)@ == old(output)@ + stamp(self, clock@),
    {
        if self.timestamp {
            let mut label = "[".to_owned();
            label.append(clock);
            label.append("] ");
            self.write_styled(output, TextStyle::Timestamp, &label);
        } else {
            assert(output@ =~= old(output)@ + stamp(self, clock@));
        }
    }

    /// Append a line with its timestamp and segments.
    fn write_rendered_line(self, output: &mut String, clock: &str, segments: &[Segment<'_>])
        ensures
            final(output)@ == old(output)@ + rendered_line(self, clock@, segment_views(segments@)),
    {
        let ghost start = output@;
        self.write_timestamp(output, clock);
        self.write_segments(output, segments);
        output.append("\n");
        assert(output@ =~= start + rendered_line(self, clock@, segment_views(segments@)));
    }

    /// Render a line, optionally replacing the previous line.
    pub fn write_line(self, clock: &str, replace_previous: bool, segments: &[Segment<'_>]) -> (output:
        String)
        ensures
            output@ == placed_line(self, clock@, replace_previous, segment_views(segments@)),
    {
        let mut output = String::new();
        if replace_previous {
            output.append(Self::REPLACE);
        }
        self.write_rendered_line(&mut output, clock, segments);
        assert(output@ =~= placed_line(self, clock@, replace_previous, segment_views(segments@)));
        output
    }

    /// A dim diagnostic line.
    pub fn status(self, clock: &str, message: &str) -> (output: String)
        ensures
            output@ == if_progress(
                self,
                rendered_line(
                    self,
                    clock@,
                    seq![SegmentView { style: TextStyle::Neutral, content: message@ }],
                ),
            ),
    {
        let segments: Vec<Segment<'_>> = vec![Segment::text(TextStyle::Neutral, message)];
        assert(segment_views(segments@) =~= seq![SegmentView { style: TextStyle::Neutral, content: message@ }]);
        self.status_segments(clock, &segments)
    }

    /// A dim diagnostic line with individually styled fragments.
    pub fn status_segments(self, clock: &str, segments: &[Segment<'_>]) -> (output: String)
        ensures
            output@ == if_progress(self, rendered_line(self, clock@, segment_views(segments@))),
    {
        if !self.progress {
            return String::new();
        }
        let output = self.write_line(clock, false, segments);
        assert(output@ =~= rendered_line(self, clock@, segment_views(segments@)));
        output
    }

    /// An orange warning line.
    pub fn warning(self, clock: &str, message: &str) -> (output: String)
        ensures
            output@ == if_progress(
                self,
                rendered_line(
                    self,
                    clock@,
                    seq![SegmentView { style: TextStyle::Orange, content: message@ }],
                ),
            ),
    {
        let segments: Vec<Segment<'_>> = vec![Segment::text(TextStyle::Orange, message)];
        assert(segment_views(segments@) =~= seq![SegmentView { style: TextStyle::Orange, content: message@ }]);
        self.status_segments(clock, &segments)
    }

    /// Whether a spinner should be emitted.
    pub fn should_write_spinner(self, first: bool) -> (result: bool)
        ensures
            result == (self.interactive || first),
    {
        self.interactive || first
    }

    /// Redraw a dim spinner line. A [`Segment::Spinner`] may appear anywhere in `segments`.
    pub fn spinner(self, clock: &str, first: bool, segments: &[Segment<'_>]) -> (output: String)
        ensures
            output@ == spinner_output(self, clock@, first, segment_views(segments@)),
    {
        if self.progress && self.should_write_spinner(first) {
            self.write_line(clock, self.interactive && !first, segments)
        } else {
            String::new()
        }
    }

    /// Replace an active spinner with a styled completion line.
    pub fn complete(self, clock: &str, segments: &[Segment<'_>]) -> (output: String)
        ensures
            output@ == completed_output(self, clock@, segment_views(segments@)),
    {
        if !self.progress {
            return String::new();
        }
        self.write_line(clock, self.interactive, segments)
    }

    /// An error and its context chain, in red.
    pub fn error(self, clock: &str, error: &str) -> (output: String)
        ensures
            output@ == rendered_line(
                self,
                clock@,
                seq![SegmentView { style: TextStyle::Error, content: error@ }],
            ),
    {
        let segments: Vec<Segment<'_>> = vec![Segment::text(TextStyle::Error, error)];
        assert(segment_views(segments@) =~= seq![SegmentView { style: TextStyle::Error, content: error@ }]);
        let output = self.write_line(clock, false, &segments);
        assert(output@ =~= rendered_line(self, clock@, segment_views(segments@)));
        output
    }

    /// Append the sequence that moves the cursor up.
    fn write_cursor_up(output: &mut String, rows: usize)
        ensures
            final(output)@ == old(output)@ + cursor_up(rows as nat),
    {
        let ghost start = output@;
        output.append("\x1b[");
        text::append_decimal(output, rows as u64);
        output.append("A");
        assert(output@ =~= start + cursor_up(rows as nat));
    }

    /// Append the current thinking preview and clear stale rows.
    fn write_thinking_lines(
        self,
        output: &mut String,
        clock: &str,
        previous_lines: usize,
        lines: &[String],
    )
        ensures
            final(output)@ == old(output)@ + thinking_block(
                self,
                clock@,
                previous_lines as nat,
                text::texts(lines@),
            ),
    {
        let ghost start = output@;
        let ghost views = text::texts(lines@);
        let rows = if previous_lines > lines.len() {
            previous_lines
        } else {
            lines.len()
        };
        assert(output@ =~= start + thinking_rows(self, clock@, views, 0));
        for row in 0..rows
            invariant
                views == text::texts(lines@),
                output@ == start + thinking_rows(self, clock@, views, row as nat),
        {
            let ghost before = thinking_rows(self, clock@, views, row as nat);
            output.append(Self::CLEAR_LINE);
            if row < lines.len() {
                self.write_timestamp(output, clock);
                assert(views[row as int] == lines@[row as int]@);
                self.write_styled(output, TextStyle::Thinking, &lines[row]);
            }
            output.append("\n");
            assert(output@ =~= start + (before + thinking_row(self, clock@, views, row as int)));
        }
        if rows > lines.len() {
            Self::write_cursor_up(output, rows - lines.len());
        }
        assert(output@ =~= start + thinking_block(self, clock@, previous_lines as nat, views));
    }

    /// Redraw a spinner above the latest streamed reasoning lines.
    ///
    /// Also returns the number of visible reasoning lines to pass to the next call.
    #[must_use]
    pub fn thinking(
        self,
        clock: &str,
        first: bool,
        previous_lines: usize,
        spinner: &[Segment<'_>],
        lines: &[String],
    ) -> (result: (String, usize))
        ensures
            result.0@ == thinking_output(
                self,
                clock@,
                first,
                previous_lines,
                segment_views(spinner@),
                text::texts(lines@),
            ),
            result.1 == if self.progress && self.interactive {
                lines@.len()
            } else {
                0
            },
    {
        if !self.progress {
            return (String::new(), 0);
        }
        if !self.interactive {
            let mut output = String::new();
            if first {
                self.write_rendered_line(&mut output, clock, spinner);
                assert(output@ =~= rendered_line(self, clock@, segment_views(spinner@)));
            }
            return (output, 0);
        }
        let mut output = String::new();
        if !first {
            Self::write_cursor_up(&mut output, previous_lines.saturating_add(1));
        }
        output.append(Self::CLEAR_LINE);
        self.write_rendered_line(&mut output, clock, spinner);
        self.write_thinking_lines(&mut output, clock, previous_lines, lines);
        assert(output@ =~= thinking_output(
            self,
            clock@,
            first,
            previous_lines,
            segment_views(spinner@),
            text::texts(lines@),
        ));
        (output, lines.len())
    }

    /// Remove a thinking spinner, preserve its latest reasoning lines, and append a completion.
    pub fn finish_thinking(
        self,
        clock: &str,
        previous_lines: usize,
        lines: &[String],
        completion: &[Segment<'_>],
    ) -> (output: String)
        ensures
            output@ == finished_output(
                self,
                clock@,
                previous_lines,
                text::texts(lines@),
                segment_views(completion@),
            ),
    {
        if !self.progress {
            return String::new();
        }
        if !self.interactive {
            let output = self.complete(clock, completion);
            assert(output@ =~= rendered_line(self, clock@, segment_views(completion@)));
            return output;
        }
        let mut output = String::new();
        let rows = previous_lines.saturating_add(1);
        Self::write_cursor_up(&mut output, rows);
        self.write_thinking_lines(&mut output, clock, rows, lines);
        self.write_rendered_line(&mut output, clock, completion);
        assert(output@ =~= finished_output(
            self,
            clock@,
            previous_lines,
            text::texts(lines@),
            segment_views(completion@),
        ));
        output
    }

    /// Render a fixed-width, proportional progress bar.
    #[must_use]
    pub fn progress_bar(value: usize, total: usize, width: usize) -> (result: String)
        ensures
            result@ == bar(value as nat, total as nat, width as nat),
    {
        let mut filled: usize = 0;
        if total > 0 {
            assert(value as u128 * width as u128 <= u128::MAX) by (nonlinear_arith)
                requires
                    value <= u64::MAX,
                    width <= u64::MAX,
            ;
            let share = value as u128 * width as u128 / total as u128;
            filled = if share > width as u128 {
                width
            } else {
                share as usize
            };
        }
        assert(filled == filled_cells(value as nat, total as nat, width as nat));
        let mut result = String::new();
        for i in 0..filled
            invariant
                result@ == cells('█', i as nat),
        {
            result.push('█');
            assert(result@ =~= cells('█', (i + 1) as nat));
        }
        assert(result@ =~= cells('█', filled as nat) + cells('░', 0));
        for i in 0..width - filled
            invariant
                filled <= width,
                result@ == cells('█', filled as nat) + cells('░', i as nat),
        {
            result.push('░');
            assert(result@ =~= cells('█', filled as nat) + cells('░', (i + 1) as nat));
        }
        result
    }
}

/// The time that a timestamp shows: the first eight characters of the formatted time, `HH:MM:SS`.
pub fn clock_label(formatted: Option<&str>) -> (label: String)
    requires
        formatted matches Some(time) ==> time@.len() >= 8,
    ensures
        label@ == match formatted {
            Some(time) => time@.take(8),
            None => "??:??:??"@,
        },
{
    match formatted {
        Some(time) => {
            let label = text::text_between(&text::chars_of(time), 0, 8);
            assert(label@ =~= time@.take(8));
            label
        },
        None => "??:??:??".to_owned(),
    }
}

/// A progress bar always has its full width.
pub proof fn lemma_bar_has_its_width(value: nat, total: nat, width: nat)
    ensures
        bar(value, total, width).len() == width,
{
}

/// A progress bar is empty at zero, and full from the total on.
pub proof fn lemma_bar_shows_the_ends(value: nat, total: nat, width: nat)
    requires
        total > 0,
    ensures
        value == 0 ==> bar(value, total, width) == cells('░', width),
        value >= total ==> bar(value, total, width) == cells('█', width),
{
    if value == 0 {
        assert(value * width == 0) by (nonlinear_arith)
            requires
                value == 0,
        ;
        assert(0nat / total == 0) by (nonlinear_arith)
            requires
                total > 0,
        ;
        assert(bar(value, total, width) =~= cells('░', width));
    }
    if value >= total {
        assert(value * width / total >= width) by (nonlinear_arith)
            requires
                value >= total > 0,
        ;
        assert(bar(value, total, width) =~= cells('█', width));
    }
}

/// Without progress output, nothing but an error is written.
pub proof fn lemma_quiet_output_is_empty(
    terminal: Terminal,
    clock: Seq<char>,
    first: bool,
    previous_lines: usize,
    segments: Seq<SegmentView>,
    lines: Seq<Seq<char>>,
    output: Seq<char>,
)
    requires
        !terminal.progress,
    ensures
        if_progress(terminal, output).len() == 0,
        thinking_output(terminal, clock, first, previous_lines, segments, lines).len() == 0,
        finished_output(terminal, clock, previous_lines, lines, segments).len() == 0,
        spinner_output(terminal, clock, first, segments).len() == 0,
        completed_output(terminal, clock, segments).len() == 0,
{
}

/// Without an interactive terminal, a spinner is written once, when it first shows.
pub proof fn lemma_redirected_spinners_are_written_once(
    terminal: Terminal,
    clock: Seq<char>,
    previous_lines: usize,
    segments: Seq<SegmentView>,
    lines: Seq<Seq<char>>,
)
    requires
        terminal.progress,
        !terminal.interactive,
    ensures
        thinking_output(terminal, clock, true, previous_lines, segments, lines) == rendered_line(
            terminal,
            clock,
            segments,
        ),
        thinking_output(terminal, clock, false, previous_lines, segments, lines).len() == 0,
        spinner_output(terminal, clock, true, segments) == rendered_line(
            terminal,
            clock,
            segments,
        ),
        spinner_output(terminal, clock, false, segments).len() == 0,
{
    assert(spinner_output(terminal, clock, true, segments) =~= rendered_line(
        terminal,
        clock,
        segments,
    ));
}

/// Every text of a line is shown whole, with and without colour, and in order: what is rendered of
/// texts in a row is what is rendered of each.
pub proof fn lemma_rendered_texts_follow_each_other(
    color: bool,
    first: Seq<SegmentView>,
    second: Seq<SegmentView>,
)
    ensures
        rendered(color, first + second) == rendered(color, first) + rendered(color, second),
    decreases second.len(),
{
    if second.len() == 0 {
        assert(first + second =~= first);
        assert(rendered(color, first) + rendered(color, second) =~= rendered(color, first));
    } else {
        lemma_rendered_texts_follow_each_other(color, first, second.drop_last());
        assert((first + second).drop_last() =~= first + second.drop_last());
        assert(rendered(color, first + second) =~= rendered(color, first) + rendered(
            color,
            second,
        ));
    }
}

/// A text without colour is nothing but its content; with colour the content stands between the
/// code of its style and the code that ends every style.
pub proof fn lemma_colour_only_surrounds_the_content(style: TextStyle, content: Seq<char>)
    ensures
        rendered(false, seq![SegmentView { style, content }]) == content,
        rendered(true, seq![SegmentView { style, content }]) == "\x1b[0m"@ + code(style) + content
            + "\x1b[0m"@,
{
    let one = seq![SegmentView { style, content }];
    assert(one.drop_last() =~= seq![]);
    assert(rendered(false, seq![]) =~= seq![]);
    assert(rendered(true, seq![]) =~= seq![]);
    assert(rendered(false, one) =~= content);
    assert(rendered(true, one) =~= "\x1b[0m"@ + code(style) + content + "\x1b[0m"@);
}

/// A line ends with its line feed; a timestamp stands in front of it exactly where the terminal shows
/// them.
pub proof fn lemma_lines_start_with_their_timestamp(
    terminal: Terminal,
    clock: Seq<char>,
    segments: Seq<SegmentView>,
)
    ensures
        !terminal.timestamp ==> rendered_line(terminal, clock, segments) == rendered(
            terminal.color,
            segments,
        ) + "\n"@,
        terminal.timestamp ==> rendered_line(terminal, clock, segments) == rendered(
            terminal.color,
            seq![SegmentView { style: TextStyle::Timestamp, content: "["@ + clock + "] "@ }]
                + segments,
        ) + "\n"@,
{
    let shown = SegmentView { style: TextStyle::Timestamp, content: "["@ + clock + "] "@ };
    lemma_rendered_texts_follow_each_other(terminal.color, seq![shown], segments);
    assert(seq![shown].drop_last() =~= seq![]);
    assert(rendered(terminal.color, seq![]) =~= seq![]);
    assert(rendered(terminal.color, seq![shown]) =~= styled(
        terminal.color,
        TextStyle::Timestamp,
        shown.content,
    ));
    assert(rendered_line(terminal, clock, segments) =~= stamp(terminal, clock) + (rendered(
        terminal.color,
        segments,
    ) + "\n"@));
}

/// A bar has as many filled cells as its value has of the total, rounded down.
pub proof fn lemma_bars_are_filled_in_proportion(value: nat, total: nat, width: nat)
    requires
        0 < total,
        value <= total,
    ensures
        filled_cells(value, total, width) * total <= value * width,
        value * width < (filled_cells(value, total, width) + 1) * total,
        forall|i: int|
            0 <= i < width ==> #[trigger] bar(value, total, width)[i] == if i < filled_cells(
                value,
                total,
                width,
            ) {
                '█'
            } else {
                '░'
            },
{
    let product: int = (value * width) as int;
    let divisor: int = total as int;
    vstd::arithmetic::div_mod::lemma_fundamental_div_mod(product, divisor);
    assert(product / divisor <= width) by (nonlinear_arith)
        requires
            product == value * width,
            divisor == total,
            0 < total,
            value <= total,
            product == divisor * (product / divisor) + product % divisor,
            0 <= product % divisor,
    ;
    assert((product / divisor + 1) * divisor == divisor * (product / divisor) + divisor)
        by (nonlinear_arith);
    assert((product / divisor) * divisor == divisor * (product / divisor)) by (nonlinear_arith);
}

/// A line that replaces the one before it is that line behind the code that clears the other.
pub proof fn lemma_interactive_spinners_replace_their_line(
    terminal: Terminal,
    clock: Seq<char>,
    segments: Seq<SegmentView>,
)
    requires
        terminal.progress,
        terminal.interactive,
    ensures
        spinner_output(terminal, clock, true, segments) == rendered_line(terminal, clock, segments),
        spinner_output(terminal, clock, false, segments) == "\x1b[A\r\x1b[K"@ + rendered_line(
            terminal,
            clock,
            segments,
        ),
        completed_output(terminal, clock, segments) == spinner_output(
            terminal,
            clock,
            false,
            segments,
        ),
{
    assert(spinner_output(terminal, clock, true, segments) =~= rendered_line(
        terminal,
        clock,
        segments,
    ));
}

/// The number of line feeds in a text.
pub open spec fn line_feeds(text: Seq<char>) -> nat
    decreases text.len(),
{
    if text.len() == 0 {
        0
    } else {
        line_feeds(text.drop_last()) + (if text.last() == '\n' {
            1nat
        } else {
            0
        })
    }
}

proof fn lemma_line_feeds_add_up(left: Seq<char>, right: Seq<char>)
    ensures
        line_feeds(left + right) == line_feeds(left) + line_feeds(right),
    decreases right.len(),
{
    if right.len() == 0 {
        assert(left + right =~= left);
    } else {
        assert((left + right).drop_last() =~= left + right.drop_last());
        lemma_line_feeds_add_up(left, right.drop_last());
    }
}

proof fn lemma_no_line_feeds(text: Seq<char>)
    requires
        !text.contains('\n'),
    ensures
        line_feeds(text) == 0,
    decreases text.len(),
{
    if text.len() > 0 {
        assert(text[text.len() - 1] == text.last());
        assert forall|i: int| 0 <= i < text.drop_last().len() implies text.drop_last()[i]
            != '\n' by {
            assert(text[i] == text.drop_last()[i]);
        }
        lemma_no_line_feeds(text.drop_last());
    }
}

proof fn lemma_one_line_feed()
    ensures
        line_feeds("\n"@) == 1,
{
    reveal_strlit("\n");
    assert("\n"@.drop_last() =~= seq![]);
    assert(line_feeds(seq![]) == 0);
}

proof fn lemma_styles_add_no_line_feeds(color: bool, style: TextStyle, content: Seq<char>)
    requires
        style == TextStyle::Thinking || style == TextStyle::Timestamp,
        !content.contains('\n'),
    ensures
        line_feeds(styled(color, style, content)) == 0,
{
    lemma_no_line_feeds(content);
    reveal_strlit("\x1b[0m");
    reveal_strlit("\x1b[2;38;5;240m");
    reveal_strlit("\x1b[2;38;5;103m");
    lemma_no_line_feeds(Terminal::CLEAR@);
    lemma_no_line_feeds(code(style));
    lemma_line_feeds_add_up(Terminal::CLEAR@, code(style));
    lemma_line_feeds_add_up(Terminal::CLEAR@ + code(style), content);
    lemma_line_feeds_add_up(Terminal::CLEAR@ + code(style) + content, Terminal::CLEAR@);
}

proof fn lemma_stamps_add_no_line_feeds(terminal: Terminal, clock: Seq<char>)
    requires
        !clock.contains('\n'),
    ensures
        line_feeds(stamp(terminal, clock)) == 0,
{
    if terminal.timestamp {
        reveal_strlit("[");
        reveal_strlit("] ");
        let content = "["@ + clock + "] "@;
        assert forall|i: int| 0 <= i < content.len() implies content[i] != '\n' by {
            if 1 <= i <= clock.len() {
                assert(content[i] == clock[i - 1]);
                assert(clock.contains(clock[i - 1]));
            }
        }
        lemma_styles_add_no_line_feeds(terminal.color, TextStyle::Timestamp, content);
    }
}

/// Each row of the thinking preview takes one line, whether or not there is text for it.
pub proof fn lemma_thinking_rows_take_a_line_each(
    terminal: Terminal,
    clock: Seq<char>,
    lines: Seq<Seq<char>>,
    rows: nat,
)
    requires
        !clock.contains('\n'),
        forall|i: int| 0 <= i < lines.len() ==> !(#[trigger] lines[i]).contains('\n'),
    ensures
        line_feeds(thinking_rows(terminal, clock, lines, rows)) == rows,
    decreases rows,
{
    if rows > 0 {
        let before = (rows - 1) as nat;
        let row = rows - 1;
        lemma_thinking_rows_take_a_line_each(terminal, clock, lines, before);
        let content = if row < lines.len() {
            stamp(terminal, clock) + styled(terminal.color, TextStyle::Thinking, lines[row])
        } else {
            seq![]
        };
        if row < lines.len() {
            lemma_stamps_add_no_line_feeds(terminal, clock);
            lemma_styles_add_no_line_feeds(terminal.color, TextStyle::Thinking, lines[row]);
            lemma_line_feeds_add_up(
                stamp(terminal, clock),
                styled(terminal.color, TextStyle::Thinking, lines[row]),
            );
        }
        lemma_one_line_feed();
        reveal_strlit("\r\x1b[K");
        lemma_no_line_feeds(Terminal::CLEAR_LINE@);
        lemma_line_feeds_add_up(Terminal::CLEAR_LINE@, content);
        lemma_line_feeds_add_up(Terminal::CLEAR_LINE@ + content, "\n"@);
        lemma_line_feeds_add_up(
            thinking_rows(terminal, clock, lines, before),
            thinking_row(terminal, clock, lines, row),
        );
    } else {
        assert(thinking_rows(terminal, clock, lines, rows) =~= seq![]);
    }
}

/// A redrawn preview starts where it stood: the cursor goes up over the spinner and the rows that were
/// shown. It ends behind its last row: rows that are no longer needed are cleared, and the cursor
/// goes back up over exactly those.
pub proof fn lemma_previews_are_redrawn_in_place(
    terminal: Terminal,
    clock: Seq<char>,
    previous_lines: usize,
    spinner: Seq<SegmentView>,
    lines: Seq<Seq<char>>,
)
    requires
        terminal.progress,
        terminal.interactive,
        previous_lines < usize::MAX,
    ensures
        thinking_output(terminal, clock, false, previous_lines, spinner, lines) == "\x1b["@
            + text::decimal((previous_lines + 1) as nat) + "A"@ + thinking_output(
            terminal,
            clock,
            true,
            previous_lines,
            spinner,
            lines,
        ),
        thinking_output(terminal, clock, true, previous_lines, spinner, lines) == "\r\x1b[K"@
            + rendered_line(terminal, clock, spinner) + (if previous_lines > lines.len() {
            thinking_rows(terminal, clock, lines, previous_lines as nat) + ("\x1b["@
                + text::decimal((previous_lines - lines.len()) as nat) + "A"@)
        } else {
            thinking_rows(terminal, clock, lines, lines.len())
        }),
        finished_output(terminal, clock, previous_lines, lines, spinner) == "\x1b["@
            + text::decimal((previous_lines + 1) as nat) + "A"@ + (if previous_lines + 1
            > lines.len() {
            thinking_rows(terminal, clock, lines, (previous_lines + 1) as nat) + ("\x1b["@
                + text::decimal((previous_lines + 1 - lines.len()) as nat) + "A"@)
        } else {
            thinking_rows(terminal, clock, lines, lines.len())
        }) + rendered_line(terminal, clock, spinner),
{
    let up = cursor_up(one_more(previous_lines));
    let shown = rendered_line(terminal, clock, spinner);
    let block = thinking_block(terminal, clock, previous_lines as nat, lines);
    lemma_four_texts(up, Terminal::CLEAR_LINE@, shown, block);
}

proof fn lemma_four_texts(a: Seq<char>, b: Seq<char>, c: Seq<char>, d: Seq<char>)
    ensures
        a + b + c + d == a + (b + c + d),
        seq![] + b + c + d == b + c + d,
        seq![] + b + c + d == seq![] + (b + c + d),
{
    assert(a + b + c + d =~= a + (b + c + d));
    assert(seq![] + b + c + d =~= b + c + d);
    assert(seq![] + (b + c + d) =~= b + c + d);
}

} // verus!
