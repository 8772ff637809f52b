use git_scribe::ollama::{ChatEvent, ChatResponse, ResponseMessage};
use git_scribe::terminal::progress::{format_elapsed, thinking_preview_columns};
use git_scribe::terminal::terminal::clock_label;
use git_scribe::terminal::{
    ChatProgress, Elapsed, Segment, Spinner, Terminal, TextStyle, ThinkingPreview,
};

fn plain(interactive: bool) -> Terminal {
    Terminal { color: false, interactive, progress: true, timestamp: false }
}

fn response(prompt: Option<u64>, answer: Option<u64>) -> ChatResponse {
    ChatResponse {
        message: ResponseMessage { content: String::new(), thinking: None },
        done_reason: None,
        prompt_eval_count: prompt,
        eval_count: answer,
    }
}

#[test]
fn elapsed_times_round_to_whole_seconds_and_include_minutes() {
    assert_eq!(format_elapsed(Elapsed::from_millis(499)), "0s");
    assert_eq!(format_elapsed(Elapsed::from_millis(500)), "1s");
    assert_eq!(format_elapsed(Elapsed::from_secs(70)), "1m 10s");
}

#[test]
fn elapsed_times_saturate() {
    assert_eq!(
        format_elapsed(Elapsed::new(u64::MAX, 999_999_999)),
        format!("{}m {}s", u64::MAX / 60, u64::MAX % 60)
    );
    let later = Elapsed::new(2, 100);
    let earlier = Elapsed::new(1, 200);
    assert_eq!(format_elapsed(later.since(earlier)), "1s");
    assert_eq!(format_elapsed(earlier.since(later)), "0s");
}

#[test]
fn thinking_preview_keeps_the_latest_five_lines_across_fragments() {
    let mut preview = ThinkingPreview::new(80);
    preview.push("one\ntwo\n");
    let lines = preview.push("three\nfour\nfive\nsix");

    assert_eq!(lines, ["two", "three", "four", "five", "six"]);
}

#[test]
fn thinking_preview_wraps_and_flushes() {
    let mut preview = ThinkingPreview::new(3);
    assert_eq!(preview.push("ab"), ["ab"]);
    assert_eq!(preview.push("cd\r\ne"), ["abc", "d", "e"]);
    assert_eq!(preview.finish(), ["abc", "d", "e"]);
    assert_eq!(preview.push("x"), ["abc", "d", "e", "x"]);

    let mut whole = ThinkingPreview::new(3);
    assert_eq!(whole.push("abcd\r\ne"), ["abc", "d", "e"]);
}

#[test]
fn preview_width_follows_the_terminal() {
    assert_eq!(thinking_preview_columns(None), 72);
    assert_eq!(thinking_preview_columns(Some(19)), 72);
    assert_eq!(thinking_preview_columns(Some(20)), 9);
    assert_eq!(thinking_preview_columns(Some(80)), 69);
}

#[test]
fn spinner_cycles_through_all_frames() {
    let mut spinner = Spinner::default();
    let frames = (0..spinner.frames().len())
        .map(|_| spinner.next_frame())
        .collect::<Vec<_>>();

    assert_eq!(frames, spinner.frames());
    let first = spinner.frames()[0];
    assert_eq!(spinner.next_frame(), first);
    assert_eq!(frames, Spinner::BRAILLE_SPIN);
}

#[test]
fn spinners_need_a_frame() {
    assert!(Spinner::new(Vec::new()).is_none());
    let mut orbit = Spinner::from_slice(&Spinner::ORBIT).unwrap();
    assert_eq!(orbit.next_frame(), "◜");
    assert_eq!(orbit.next_frame(), "◝");
}

#[test]
fn adjacent_segments_each_reset_and_set_their_complete_style() {
    let terminal = Terminal::new(true, false, false);
    let mut output = String::new();

    terminal.write_segments(
        &mut output,
        &[
            Segment::text(TextStyle::Green, "+1"),
            Segment::text(TextStyle::Neutral, "|"),
            Segment::text(TextStyle::Red, "-1"),
        ],
    );

    assert_eq!(
        output,
        "\x1b[0m\x1b[32m+1\x1b[0m\x1b[0m\x1b[2;39m|\x1b[0m\x1b[0m\x1b[31m-1\x1b[0m"
    );
}

#[test]
fn non_interactive_output_writes_each_spinner_phase_once() {
    let terminal = Terminal { color: false, interactive: false, progress: true, timestamp: false };

    assert!(terminal.should_write_spinner(true));
    assert!(!terminal.should_write_spinner(false));
}

#[test]
fn quiet_output_keeps_errors_only() {
    let quiet = plain(true).with_progress(false);
    assert_eq!(quiet.status("00:00:00", "status"), "");
    assert_eq!(quiet.warning("00:00:00", "warning"), "");
    assert_eq!(quiet.error("00:00:00", "error"), "error\n");
}

#[test]
fn timestamps_stand_in_front_of_lines() {
    let terminal = Terminal::new(false, true, false);
    assert_eq!(terminal.status("12:34:56", "ready"), "[12:34:56] ready\n");
    assert_eq!(clock_label(Some("12:34:56.789Z")), "12:34:56");
    assert_eq!(clock_label(None), "??:??:??");
}

#[test]
fn completed_lines_replace_the_spinner_on_a_terminal() {
    let done = [Segment::text(TextStyle::Neutral, "done")];
    assert_eq!(plain(true).complete("", &done), "\x1b[A\r\x1b[Kdone\n");
    assert_eq!(plain(false).complete("", &done), "done\n");
    assert_eq!(plain(true).spinner("", false, &done), "\x1b[A\r\x1b[Kdone\n");
    assert_eq!(plain(true).spinner("", true, &done), "done\n");
    assert_eq!(plain(false).spinner("", false, &done), "");
}

#[test]
fn thinking_preview_is_redrawn_in_place() {
    let spinner = [Segment::spinner(TextStyle::Neutral, "*")];
    let lines = ["a".to_owned(), "b".to_owned()];
    let (first, shown) = plain(true).thinking("", true, 0, &spinner, &lines);
    assert_eq!(first, "\r\x1b[K*\n\r\x1b[Ka\n\r\x1b[Kb\n");
    assert_eq!(shown, 2);
    let (next, shown) = plain(true).thinking("", false, 2, &spinner, &lines[..1]);
    assert_eq!(next, "\x1b[3A\r\x1b[K*\n\r\x1b[Ka\n\r\x1b[K\n\x1b[1A");
    assert_eq!(shown, 1);
    let end = plain(true).finish_thinking("", 1, &lines[..1], &[Segment::text(TextStyle::Neutral, "end")]);
    assert_eq!(end, "\x1b[2A\r\x1b[Ka\n\r\x1b[K\n\x1b[1Aend\n");
}

#[test]
fn progress_bars_are_proportional() {
    assert_eq!(Terminal::progress_bar(1, 2, 4), "██░░");
    assert_eq!(Terminal::progress_bar(5, 2, 4), "████");
    assert_eq!(Terminal::progress_bar(0, 2, 4), "░░░░");
    assert_eq!(Terminal::progress_bar(1, 0, 4), "░░░░");
    assert_eq!(Terminal::progress_bar(1, 2, 0), "");
    assert_eq!(Terminal::progress_bar(usize::MAX, usize::MAX, 4), "████");
    assert_eq!(Terminal::progress_bar(usize::MAX / 2 + 1, usize::MAX, 4), "██░░");
}

#[test]
fn chat_progress_follows_the_response() {
    let start = Elapsed::from_secs(10);
    let (mut progress, sent) = ChatProgress::new(plain(false), "model", false, None, start, "");
    assert_eq!(sent, "Sending prompt to model\nWaiting for Ollama...\n");
    let at = Elapsed::from_secs;
    assert_eq!(
        progress.handle(ChatEvent::ResponseStarted, at(12), ""),
        "Ollama responded in 2s\n"
    );
    assert_eq!(
        progress.handle(ChatEvent::Thinking("hm".to_owned()), at(13), ""),
        "⠋ Thinking (0s)\n"
    );
    assert_eq!(progress.handle(ChatEvent::Thinking("hm".to_owned()), at(14), ""), "");
    assert_eq!(
        progress.handle(ChatEvent::Generating("{".to_owned()), at(16), ""),
        "Thought for 3s\n⠹ Generating (0s)\n"
    );
    assert_eq!(
        progress.finish(&response(Some(40), Some(2)), at(20), ""),
        "Generation done in 4s · 42 total tokens\n"
    );
}

#[test]
fn shown_thinking_ends_with_its_lines() {
    let start = Elapsed::from_secs(0);
    let (mut progress, _) = ChatProgress::new(plain(true), "model", true, Some(80), start, "");
    progress.handle(ChatEvent::Thinking("one\ntwo".to_owned()), start, "");
    assert_eq!(
        progress.finish(&response(None, None), Elapsed::from_secs(1), ""),
        "\x1b[3A\r\x1b[Kone\n\r\x1b[Ktwo\n\r\x1b[K\n\x1b[1AThinking done 1s\n"
    );
}

#[test]
fn token_totals_saturate() {
    assert_eq!(response(Some(u64::MAX), Some(1)).total_tokens(), u64::MAX);
    assert_eq!(response(None, Some(7)).total_tokens(), 7);
}
