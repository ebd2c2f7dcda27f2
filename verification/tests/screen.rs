use hibiscus::activity::Timeline;
use hibiscus::base64::base64;
use hibiscus::display::strip_ansi;
use hibiscus::draft::{draft_cursor_position, draft_index_on_row, draft_lines};
use hibiscus::display::goal_line;
use hibiscus::frame::{styled_line, transcript_line, Platform, ACCENT, FAINT};
use hibiscus::input::{ActiveStep, NavStep, Prompt, PromptStep};
use hibiscus::json::Json;
use hibiscus::keys::{EscapeKey, Navigation};
use hibiscus::markdown::{self, Role, Row};
use hibiscus::modal::picker_panel;
use hibiscus::picker::Picker;
use hibiscus::queue::{DraftSubmission, QueueMode};
use hibiscus::screen::{
    dialog_answer, AnswerStep, DialogOpening, FlushStep, ModalStep, Screen, SelectStep,
};
use hibiscus::transport::{Inbox, Limits, Received, Shared};
use hibiscus::ui::style_text;
use std::collections::VecDeque;
use std::sync::Arc;

const COLUMNS: usize = 80;
const ROWS: usize = 24;
const LINUX: Platform = Platform {
    macos: false,
    wsl: false,
};

fn json(text: &str) -> Json {
    let mut inbox = Inbox {
        shared: Shared::default(),
    };
    let limits = Limits {
        bytes: 64 * 1024 * 1024,
        records: 16,
    };
    assert!(inbox.shared.push(text.as_bytes().to_vec(), limits));
    match inbox.receive() {
        Received::Record(value) => value,
        _ => panic!("no record: {text}"),
    }
}

/// A screen that is not drawn.
fn new() -> Screen {
    Screen::new(false, false, None, false, true, None, COLUMNS, ROWS)
}

/// A screen that is drawn.
fn drawn(color: bool) -> Screen {
    let mut screen = Screen::new(
        true,
        true,
        Some("xterm"),
        !color,
        false,
        Some("project"),
        COLUMNS,
        ROWS,
    );
    assert!(screen.resume().unwrap().starts_with("\x1b[?1049h"));
    screen
}

fn keys(bytes: &[u8]) -> VecDeque<u8> {
    bytes.iter().copied().collect()
}

fn escape_key(keys: &mut VecDeque<u8>) -> Navigation {
    let mut escape = EscapeKey::new();
    loop {
        if let Some(key) = escape.feed(keys.pop_front()) {
            return key;
        }
    }
}

fn nav(byte: u8, keys: &mut VecDeque<u8>) -> Navigation {
    if byte == 27 {
        escape_key(keys)
    } else {
        Navigation::Other
    }
}

/// Handle one key at a prompt; the end of it, where it ends.
fn prompt_key(
    screen: &mut Screen,
    prompt: &mut Prompt,
    byte: u8,
    keys: &mut VecDeque<u8>,
) -> Option<Option<String>> {
    let key = nav(byte, keys);
    match screen.prompt_key(prompt, byte, key, COLUMNS, ROWS).0 {
        PromptStep::Submit(text) => return Some(text),
        PromptStep::Batch => {
            let more: Vec<u8> = keys.iter().copied().collect();
            let taken = screen.prompt_text(prompt, byte, &more, COLUMNS, ROWS);
            keys.drain(..taken);
        }
        PromptStep::Nav(_) => {}
    }
    None
}

fn read_prompt(screen: &mut Screen, prompt: &mut Prompt, keys: &mut VecDeque<u8>) -> Option<String> {
    loop {
        let byte = match screen.input.next_key(prompt) {
            Some(byte) => byte,
            None => keys.pop_front()?,
        };
        if let Some(end) = prompt_key(screen, prompt, byte, keys) {
            return end;
        }
    }
}

fn prompt(screen: &mut Screen, keys: &mut VecDeque<u8>) -> Option<String> {
    let mut prompt = screen.begin_prompt(COLUMNS, ROWS);
    read_prompt(screen, &mut prompt, keys)
}

fn active(screen: &mut Screen, byte: u8) -> ActiveStep {
    let (step, _) = screen.active_key(byte, Navigation::Other, COLUMNS, ROWS);
    if let ActiveStep::Batch = step {
        screen.active_text(byte, &[], COLUMNS);
        return ActiveStep::Nav(NavStep::Done);
    }
    step
}

/// A navigation key of the composer.
fn navigate(screen: &mut Screen, key: Navigation) {
    let working = screen.activity.is_some();
    if let NavStep::Scroll(key) = screen.input.navigate(key, working, COLUMNS, ROWS) {
        screen.scroll(key, ROWS);
    }
}

fn draft(screen: &Screen) -> String {
    screen.input.composer.text()
}

fn set_draft(screen: &mut Screen, text: &str) {
    screen.input.composer.replace(text);
}

fn cursor_row(screen: &Screen) -> usize {
    screen.input.composer.cursor_place(COLUMNS).0
}

fn transcript(screen: &Screen) -> String {
    String::from_utf8_lossy(&screen.transcript.bytes).into_owned()
}

fn stripped(text: &str) -> String {
    strip_ansi(&text.chars().collect::<Vec<_>>())
        .into_iter()
        .collect()
}

fn styled(screen: &Screen, row: &Row, width: usize) -> String {
    styled_line(row, width, screen.color, screen.auth_url.as_deref())
}

fn view(screen: &mut Screen) -> String {
    let painting = screen.render(COLUMNS, ROWS, 0, LINUX).unwrap();
    assert_eq!(painting.lines.len(), ROWS);
    let text = painting
        .lines
        .iter()
        .map(|line| stripped(line))
        .collect::<Vec<_>>()
        .join("\n");
    screen.painted(painting, COLUMNS, ROWS, 0);
    text
}

#[test]
fn layout_reuses_rows_for_typing_and_coalesces_scrolled_changes() {
    let mut screen = new();
    screen.transcript.add("hibi › first\nsecond\nthird\n");
    screen.transcript.lay_out(73);
    let original = screen.transcript.rows.len();
    let pointer = screen.transcript.rows.as_ptr();
    screen
        .input
        .insert_draft("typing does not change transcript", COLUMNS);
    screen.transcript.lay_out(73);
    assert_eq!(pointer, screen.transcript.rows.as_ptr());
    screen.transcript.scroll = 2;
    for line in ["fourth\n", "fifth\n"] {
        screen.transcript.add(line);
    }
    assert_eq!(screen.transcript.scroll, 2, "scroll counting is deferred until layout");
    screen.transcript.lay_out(73);
    assert_eq!(screen.transcript.rows.len(), original + 2);
    assert_eq!(screen.transcript.scroll, 4);
    screen.transcript.lay_out(73);
    assert_eq!(screen.transcript.scroll, 4, "do not apply an anchor twice");
    screen.clear_session();
    screen.transcript.lay_out(73);
    assert!(screen.transcript.rows.is_empty());
    assert_eq!(screen.transcript.scroll, 0);
}

#[test]
fn printable_batches_are_bounded_utf8_safe_and_stop_before_control_keys() {
    let mut screen = new();
    let text = "é".repeat(70);
    let mut events: VecDeque<u8> = text.bytes().skip(1).chain(*b"\rMORE").collect();
    let mut pending = Vec::new();
    let more: Vec<u8> = events.iter().copied().collect();
    let taken = screen
        .input
        .insert_batch(text.as_bytes()[0], &more, &mut pending, COLUMNS);
    events.drain(..taken);
    assert_eq!(draft(&screen).chars().count(), 64);
    let first = events.pop_front().unwrap();
    let more: Vec<u8> = events.iter().copied().collect();
    let taken = screen.input.insert_batch(first, &more, &mut pending, COLUMNS);
    events.drain(..taken);
    assert_eq!(draft(&screen), text);
    assert!(pending.is_empty());
    assert_eq!(screen.pending_key(), Some(b'\r'));
    assert_eq!(events.pop_front(), Some(b'M'));
}

#[test]
fn new_session_clears_transcript_and_transient_input_but_keeps_model() {
    let mut screen = new();
    screen.transcript.add("old conversation");
    set_draft(&mut screen, "old draft");
    screen.restore_draft(
        "failed prompt".into(),
        vec![Arc::new(json(r#"{"type":"image"}"#))],
    );
    screen.input.images.push(Arc::new(json(r#"{"type":"image"}"#)));
    screen.input.clipboard_notice = "old clipboard notice".into();
    screen.auth_url = Some("https://example.invalid".into());
    screen.transcript.scroll = 20;
    screen.input.composer.scroll = 3;
    screen.input.secret = true;
    screen.session = "old session".into();
    screen.model = "provider/model".into();
    screen.input.suggestions = Some(Picker::new("Commands".into(), vec!["/new".into()], None, 5));
    screen.clear_session();
    assert!(screen.transcript.bytes.is_empty());
    assert!(draft(&screen).is_empty());
    assert!(screen.input.restored.is_none());
    assert!(screen.input.images.is_empty());
    assert!(screen.input.clipboard_notice.is_empty());
    assert!(screen.auth_url.is_none());
    assert!(screen.input.suggestions.is_none());
    assert!(!screen.input.secret);
    assert_eq!(screen.transcript.scroll, 0);
    assert_eq!(screen.input.composer.scroll, 0);
    assert_eq!(screen.session, "new chat");
    assert_eq!(screen.model, "provider/model");
}

#[test]
fn restored_failed_draft_keeps_images_and_waits_for_explicit_submission() {
    let mut screen = new();
    let image = Arc::new(json(
        r#"{"type":"image","data":"test","mimeType":"image/png"}"#,
    ));
    screen.restore_draft("original\ntext".into(), vec![image.clone()]);
    assert_eq!(
        prompt(&mut screen, &mut keys(b" edited\r")).as_deref(),
        Some("original\ntext edited")
    );
    let images = screen.take_images();
    assert_eq!(images.len(), 1);
    assert!(Arc::ptr_eq(&images[0], &image));
    assert!(screen.input.restored.is_none());
    screen.set_disconnected(true);
    assert!(screen.disconnected);
    screen.set_disconnected(false);
    assert!(!screen.disconnected);
}

#[test]
fn follow_up_shortcuts_are_distinct_from_ctrl_enter_newlines() {
    for sequence in [b"\r".as_slice(), b"[13;3u", b"[27;3;13~"] {
        assert_eq!(escape_key(&mut keys(sequence)), Navigation::FollowUp);
    }
    assert_eq!(escape_key(&mut keys(b"[13;5u")), Navigation::Newline);
}

#[test]
fn image_paste_recognizes_alt_and_ctrl_terminal_encodings() {
    for sequence in [
        b"v".as_slice(),
        b"[118;3u",
        b"[118;5u",
        b"[27;3;118~",
        b"[27;5;118~",
        b"[118;3:1u",
    ] {
        assert_eq!(escape_key(&mut keys(sequence)), Navigation::PasteImage);
    }
    assert_eq!(escape_key(&mut keys(b"[118;3:3u")), Navigation::Other); // key release must not paste again
}

#[test]
fn multiline_input_preserves_newlines_and_backspace() {
    for newline in [
        b"\x1b[13;2u".as_slice(),
        b"\x1b[27;2;13~",
        b"\x1b[13;5u",
        b"\x1b[27;5;13~",
        b"\n",
    ] {
        let bytes: Vec<u8> = b"first"
            .iter()
            .chain(newline)
            .chain(b"second\x7f!\r")
            .copied()
            .collect();
        let mut screen = new();
        assert_eq!(
            prompt(&mut screen, &mut keys(&bytes)).as_deref(),
            Some("first\nsecon!")
        );
    }
}

#[test]
fn pi_queue_updates_wait_for_user_delivery_with_duplicate_text_and_late_acks() {
    let mut screen = new();
    screen.full = true;
    screen.suspended = true;
    screen.user("initial");
    screen.expect_initial_user("initial");
    assert!(!screen.delivered_user(&json(r#"{"content":"initial"}"#)));
    screen.queue_update(&json(
        r#"{"steering":["same","same"],"followUp":["later"]}"#,
    ));
    assert_eq!(screen.pending.items.len(), 3);
    assert!(screen.pending.items.iter().all(|item| !item.sending));
    let first = DraftSubmission {
        text: "same".into(),
        images: vec![Arc::new(json(r#"{"type":"image"}"#))],
        mode: QueueMode::Steer,
    };
    screen.queued(&first);
    assert_eq!(screen.pending.items[0].images, 1);
    assert_eq!(transcript(&screen).matches("same").count(), 0);
    screen.queue_update(&json(r#"{"steering":["same"],"followUp":["later"]}"#));
    assert_eq!(
        screen
            .pending
            .items
            .iter()
            .filter(|item| item.text == "same" && item.sending)
            .count(),
        1
    );
    screen.delivered_user(&json(
        r#"{"content":[{"type":"text","text":"same"},{"type":"image","data":"private-base64"}]}"#,
    ));
    assert_eq!(
        screen
            .pending
            .items
            .iter()
            .filter(|item| item.text == "same")
            .count(),
        1
    );
    assert!(!transcript(&screen).contains("private-base64"));
    screen.queued(&DraftSubmission {
        text: "same".into(),
        images: vec![],
        mode: QueueMode::Steer,
    });
    screen.queue_update(&json(r#"{"steering":[],"followUp":["later"]}"#));
    screen.delivered_user(&json(r#"{"content":"same"}"#));
    assert_eq!(transcript(&screen).matches("you › same").count(), 2);
    screen.queue_update(&json(r#"{"steering":[],"followUp":[]}"#));
    screen.delivered_user(&json(r#"{"content":"later"}"#));
    screen.queued(&DraftSubmission {
        text: "later".into(),
        images: vec![],
        mode: QueueMode::FollowUp,
    });
    assert!(
        screen.pending.items.is_empty(),
        "late acknowledgement must not recreate an already delivered message"
    );
    assert_eq!(transcript(&screen).matches("you › initial").count(), 1);
    assert_eq!(transcript(&screen).matches("you › later").count(), 1);
}

#[test]
fn live_composer_keeps_editing_and_stages_only_explicit_queue_submissions() {
    let mut screen = new();
    screen.full = true;
    screen.suspended = true;
    screen.start_work(0);
    for byte in b"hello" {
        assert!(matches!(active(&mut screen, *byte), ActiveStep::Nav(NavStep::Done)));
    }
    navigate(&mut screen, Navigation::Left);
    active(&mut screen, b'!');
    screen.input.images.push(Arc::new(json(
        r#"{"type":"image","mimeType":"image/png","data":"test"}"#,
    )));
    let ActiveStep::Submit(submission) = active(&mut screen, 17) else {
        panic!("Ctrl+Q should queue a follow-up");
    };
    assert_eq!(submission.text, "hell!o");
    assert_eq!(submission.mode, QueueMode::FollowUp);
    assert_eq!(submission.images.len(), 1);
    assert!(draft(&screen).is_empty() && screen.input.images.is_empty());
    active(&mut screen, b'k');
    screen.rejected_queue(&submission, "queue denied", COLUMNS);
    assert_eq!(draft(&screen), "k", "a newer draft must not be overwritten");
    assert_eq!(screen.take_rejected_queue().unwrap().0, "hell!o");
    active(&mut screen, 3);
    for byte in b"/new" {
        active(&mut screen, *byte);
    }
    assert!(matches!(active(&mut screen, b'\r'), ActiveStep::Nav(NavStep::Done)));
    assert_eq!(
        draft(&screen),
        "/new",
        "local commands cannot be sent as steering"
    );
}

fn type_keys(bytes: &[u8]) -> String {
    prompt(&mut new(), &mut keys(bytes)).unwrap()
}

#[test]
fn composer_edits_mid_string_with_arrows_and_utf8_boundaries() {
    assert_eq!(type_keys(b"abCD\x1b[D\x1b[D-\x1b[C\x1b[3~\r"), "ab-C");
    assert_eq!(type_keys("aé文\x1b[D\x7fß\r".as_bytes()), "aß文");
    assert_eq!(type_keys(b"hello\x01Hi \x05!\r"), "Hi hello!");
    assert_eq!(
        type_keys(b"one\ntwo\x1b[Hstart \x1b[F end\r"),
        "one\nstart two end"
    );
    assert_eq!(type_keys(b"abc\x1b[D\x04\r"), "ab");
}

#[test]
fn cursor_follows_wrapping_and_multiline_navigation_without_animation() {
    assert_eq!(draft_cursor_position("abcdef", 3, 3), (1, 0));
    assert_eq!(draft_cursor_position("abc\ndef", 3, 4), (2, 0));
    assert_eq!(draft_index_on_row("abcdef", 3, 1, 2), Some(5));
    let mut screen = new();
    set_draft(&mut screen, "one\ntwo\nthree\nfour\nfive\nsix\nseven");
    for _ in 0..5 {
        navigate(&mut screen, Navigation::Up);
    }
    assert_eq!(cursor_row(&screen), 1);
    assert!(screen.input.composer.scroll > 0);
    navigate(&mut screen, Navigation::Right);
    assert_eq!(screen.input.composer.preferred_column, None);
    navigate(&mut screen, Navigation::End);
    assert!(screen.input.composer.cursor <= screen.input.composer.draft.len());
}

#[test]
fn attachment_cancellation_limits_and_command_guard_preserve_drafts() {
    let mut screen = new();
    let image = Arc::new(json(
        r#"{"type":"image","mimeType":"image/png","data":"test"}"#,
    ));
    screen.input.images = vec![image.clone(); 4];
    navigate(&mut screen, Navigation::PasteImage);
    assert!(!screen.input.reading);
    assert!(screen.input.clipboard_notice.contains("Maximum 4"));
    screen.input.clear_images();
    assert!(screen.input.images.is_empty());

    screen.input.images.push(image.clone());
    assert_eq!(
        prompt(&mut screen, &mut keys(b"/new\r\x18\r")).as_deref(),
        Some("/new")
    );
    assert!(screen.input.images.is_empty());

    screen.input.images.push(image);
    assert_eq!(
        prompt(&mut screen, &mut keys(b"\x03kept\r")).as_deref(),
        Some("kept")
    );
    assert!(screen.input.images.is_empty());
}

#[test]
fn composer_wraps_grows_to_five_rows_and_scrolls_independently() {
    assert_eq!(draft_lines("abc\ndef", 4), ["abc", "def"]);
    assert_eq!(draft_lines("abcdef", 3), ["abc", "def", ""]);
    let mut screen = new();
    set_draft(&mut screen, "1\n2\n3\n4\n5\n6\n7");
    navigate(&mut screen, Navigation::Up);
    assert_eq!(screen.input.composer.scroll, 0);
    assert_eq!(cursor_row(&screen), 5);
    navigate(&mut screen, Navigation::MouseScroll(3, 19));
    assert_eq!(screen.input.composer.scroll, 2);
    assert_eq!(screen.transcript.scroll, 0);
    navigate(&mut screen, Navigation::MouseScroll(3, 5));
    assert_eq!(screen.transcript.scroll, 3);
    navigate(&mut screen, Navigation::Down);
    assert_eq!(screen.input.composer.scroll, 0);
    navigate(&mut screen, Navigation::Newline);
    assert_eq!(screen.input.composer.scroll, 0);
    assert!(draft(&screen).ends_with('\n'));
}

#[test]
fn next_user_turn_has_exactly_one_blank_separator() {
    let mut screen = new();
    screen.full = true;
    screen.suspended = true;
    screen.transcript.add("hibi › answer\n\n\n");
    screen.user("next");
    assert_eq!(
        String::from_utf8(screen.transcript.bytes.clone()).unwrap(),
        "hibi › answer\n\nyou › next\n"
    );
}

#[test]
fn working_flower_animates_while_explore_and_elapsed_status_refresh() {
    let mut screen = new();
    screen.full = true;
    screen.suspended = true;
    screen.start_work(1000);
    assert_eq!(screen.activity.as_ref().unwrap().phase, "Working…");
    screen.tool_start("r", "read", "src/main.rs");
    screen.tool_end("r", "read", "src/main.rs", false, None);
    assert!(screen.transcript.text().contains("◐ Exploring"));
    screen.tick_work(1400, COLUMNS, ROWS);
    assert!(screen.transcript.text().contains("◓ Exploring"));
    assert_eq!(screen.activity.as_ref().unwrap().flower, 1);
    assert_eq!(screen.activity.as_ref().unwrap().last_refresh, 1000);
    screen.activity.as_mut().unwrap().last_spinner = 3000;
    screen.tick_work(3000, COLUMNS, ROWS);
    assert_eq!(screen.activity.as_ref().unwrap().last_refresh, 3000);
    screen.tool_start("e", "edit", "src/main.rs");
    let settled = screen.transcript.text();
    assert!(settled.contains("✓ Explored"));
    screen.tick_work(3400, COLUMNS, ROWS);
    assert_eq!(screen.transcript.text(), settled);
    assert_eq!(screen.activity.as_ref().unwrap().flower, 2);
    screen.set_work("Running read…");
    assert_eq!(screen.activity.as_ref().unwrap().phase, "Running read…");
    screen.stop_work();
    assert!(screen.activity.is_none());
}

#[test]
fn unnamed_session_shows_short_id_instead_of_long_filename() {
    let mut screen = new();
    screen.status(&json(
        r#"{
            "model": {"provider":"openai-codex","id":"gpt-5.5"},
            "sessionFile":"/tmp/2026-09-24T04-02-39-644Z_01a0d19f-699b-72d7-88e2-4.jsonl",
            "sessionId":"01a0d19f-699b-72d7-88e2-4"
        }"#,
    ));
    assert_eq!(screen.session, "01a0d19f");
    assert_eq!(screen.model, "openai-codex/gpt-5.5");
}

#[test]
fn slash_suggestions_complete_and_follow_arrows() {
    assert_eq!(type_keys(b"/m\r"), "/models");
    assert_eq!(type_keys(b"/lo\x1b[B\r"), "/logout");
    assert_eq!(type_keys(b"/mo\t\r"), "/models");
    assert_eq!(type_keys(b"/mx\x7f\r"), "/models");
    assert_eq!(type_keys(b"hello\r"), "hello");
}

#[test]
fn escape_dismisses_suggestions_without_discarding_input() {
    assert_eq!(
        prompt(&mut new(), &mut keys(b"/m\x1b\r")).as_deref(),
        Some("/m")
    );
    let mut screen = new();
    let mut prompt = screen.begin_prompt(COLUMNS, ROWS);
    assert_eq!(read_prompt(&mut screen, &mut prompt, &mut keys(b"/m\x1b")), None);
    assert_eq!(
        read_prompt(&mut screen, &mut prompt, &mut keys(b"\r")).as_deref(),
        Some("/m")
    );
}

#[test]
fn update_notice_waits_for_a_started_draft_to_finish() {
    let mut screen = new();
    set_draft(&mut screen, "half-written");
    let mut prompt = screen.begin_prompt(COLUMNS, ROWS);
    assert!(!screen.input.is_quiet(&prompt));
    assert_eq!(
        read_prompt(&mut screen, &mut prompt, &mut keys(b"\r")).as_deref(),
        Some("half-written")
    );
    let prompt = screen.begin_prompt(COLUMNS, ROWS);
    assert!(screen.input.is_quiet(&prompt));
}

#[test]
fn page_keys_do_not_appear_in_prompt() {
    let mut screen = new();
    assert_eq!(
        prompt(&mut screen, &mut keys(b"\x1b[5~\x1b[<64;10;10Mhello\r")).as_deref(),
        Some("hello")
    );
    assert!(screen.transcript.scroll > 0);
}

#[test]
fn oauth_url_is_short_clickable_label_and_clipboard_encoding_is_complete() {
    assert_eq!(base64(b"a"), "YQ==");
    assert_eq!(base64(b"ab"), "YWI=");
    assert_eq!(base64(b"abc"), "YWJj");
    let mut screen = new();
    assert!(!screen.set_auth_url("https://bad.example/\u{1b}]52;"));
    assert!(screen.set_auth_url("https://auth.openai.com/oauth/authorize?state=test"));
    let line = &markdown::format("  · Open Codex sign-in ↗ (Ctrl+Y to copy)", 80)[0];
    let text = styled(&screen, line, 80);
    assert!(text.contains("\x1b]8;;https://auth.openai.com/oauth/authorize?state=test\x1b\\Open Codex sign-in ↗\x1b]8;;\x1b\\"));
    assert!(!screen
        .transcript
        .bytes
        .windows(b"state=test".len())
        .any(|part| part == b"state=test"));
    let unrelated = &markdown::format("hibi › Open Codex sign-in ↗", 80)[1];
    assert!(!styled(&screen, unrelated, 80).contains("\x1b]8;;"));
    let copied = screen.copy_auth_url().unwrap();
    assert!(copied.starts_with("\x1b]52;c;aHR0cHM6Ly9hdXRo"));
    assert!(copied.contains("Sent sign-in URL"));
    screen.clear_auth_url();
    assert!(!styled(&screen, line, 80).contains("\x1b]8;;"));
    assert!(screen.copy_auth_url().is_none());
}

#[test]
fn activity_and_diff_use_theme_colors_when_enabled() {
    let mut screen = new();
    screen.color = true;
    screen.full = true;
    screen.suspended = true;
    screen.start_work(0);
    assert!(style_text(true, ACCENT, "✾ Thinking…").contains("\x1b[1;38;2;236;74;125m"));
    let rows = markdown::format(
        "  · reasoning · 3s\n  · diff · updated.md\n    -12 old\n    +12 new",
        80,
    );
    assert!(styled(&screen, &rows[0], 80).contains("\x1b[1;38;2;236;74;125m"));
    assert!(styled(&screen, &rows[2], 80).contains("48;2;65;35;49"));
    assert!(styled(&screen, &rows[3], 80).contains("48;2;36;55;44"));
    screen.resume();
    let working = screen.render(COLUMNS, ROWS, 0, LINUX).unwrap().lines[ROWS - 2].clone();
    assert!(working.contains("\x1b[1;38;2;236;74;125m✿ Working…"), "{working:?}");
    screen.stop_work();
    let idle = screen.render(COLUMNS, ROWS, 0, LINUX).unwrap().lines[ROWS - 2].clone();
    assert!(idle.contains("\x1b[2mEnter send"), "{idle:?}");
    assert_eq!(FAINT, "2");
}

#[test]
fn picker_fits_narrow_terminal_and_marks_active_model() {
    let items = (0..8)
        .map(|n| format!("very-long-model-identifier-{n}"))
        .collect();
    let mut picker = Picker::new("Models · demo".into(), items, Some(6), 5);
    picker.move_by(0, 12 - 3);
    let rows: Vec<String> = picker_panel(&picker, 36, 12, false)
        .iter()
        .map(|row| format!("  {}", row.text))
        .collect();
    let top = 12 - rows.len();
    assert_eq!(top, 4); // panel docks to the bottom, not over the middle of chat
    assert_eq!(rows.len(), 8);
    assert!(rows
        .iter()
        .all(|line| line.starts_with("  ") && line.chars().count() <= 38));
    assert!(rows.iter().any(|line| line.contains("● current")));
    assert!(rows.iter().any(|line| line.contains('█')));
}

#[test]
fn goal_row_is_one_line_and_absent_without_an_explicit_checklist() {
    assert_eq!(
        goal_line(40, 12, 20),
        "Goal  ████████████░░░░░░░░  12/20 · 60%"
    );
    assert_eq!(
        goal_line(40, 20, 20),
        "Goal  ████████████████████  20/20 · 100%"
    );
    assert!(goal_line(18, 3, 20).chars().count() <= 18);
    let mut screen = new();
    screen.set_goal(&json(r#"{"hibiscusGoal":{"completed":3,"total":20}}"#));
    assert_eq!(screen.goal, Some((3, 20)));
    screen.set_goal(&json(
        r#"{"hibiscusGoal":{"completed":20,"total":20,"error":"invalid"}}"#,
    ));
    assert_eq!(screen.goal, Some((3, 20)));
    screen.clear_session();
    assert_eq!(screen.goal, None);
    screen.restore_goal(&vec![
        json(r#"{"role":"toolResult","toolName":"goal","details":{"hibiscusGoal":{"completed":12,"total":20}}}"#),
        json(r#"{"role":"toolResult","toolName":"read","details":{"hibiscusGoal":{"completed":20,"total":20}}}"#),
    ]);
    assert_eq!(screen.goal, Some((12, 20)));
    screen.restore_goal(&Vec::new());
    assert_eq!(screen.goal, None);
}

#[test]
fn user_tint_covers_wrapped_rows_and_margins_without_leaking() {
    let rows = markdown::format(
        "you › a long user message\nsecond line\nhibi › **reply**",
        10,
    );
    for row in rows.iter().filter(|row| row.role == Role::User) {
        let rendered = transcript_line(row, 13, 19, 3, true, None);
        assert!(rendered.starts_with("\x1b[48;2;57;30;46m   "));
        assert!(rendered.ends_with("\x1b[0m"));
        assert_eq!(stripped(&rendered).chars().count(), 19);
    }
    for row in rows.iter().filter(|row| row.role == Role::Assistant) {
        assert!(!transcript_line(row, 13, 19, 3, true, None).contains("48;2"));
    }
    assert!(rows
        .iter()
        .any(|row| styled_line(row, 10, true, None).contains("hibi")));
    assert!(!transcript_line(&rows[0], 13, 19, 3, false, None).contains('\x1b'));
}

#[test]
fn pink_highlights_markdown_but_no_color_keeps_clean_text() {
    let line = &markdown::format("hibi › **pink** `code`", 80)[1];
    assert_eq!(styled_line(line, 80, false, None), "pink code");
    assert!(styled_line(line, 80, true, None).contains("\x1b[1;38;2;255;220;230m"));
    assert!(styled_line(line, 80, true, None).contains("\x1b[38;2;255;173;197m"));
}

/// Answer a request of an extension by keys; the answer and all that was shown.
fn run(event: &str, bytes: &[u8], keep_draft: bool, wait: u64) -> (Json, String) {
    let event = json(event);
    let mut screen = drawn(true);
    screen.start_work(0);
    screen.write("hibi › BEFORE_MODAL".as_bytes());
    if keep_draft {
        for byte in b"keep this draft" {
            active(&mut screen, *byte);
        }
        assert!(view(&mut screen).contains("keep this draft"));
    }
    assert_eq!(screen.extension_dialog(&event, 0), DialogOpening::Opened);
    let mut shown = view(&mut screen);
    let heading = format!(
        "  ╭─ ✿ {}",
        event.at("title").as_text().unwrap().lines().next().unwrap()
    );
    assert!(shown.contains(&heading), "{shown}");
    assert!(shown.contains("Respond in the dialog above"));
    let mut events = keys(bytes);
    let mut answer = None;
    while !screen.modal_ends(wait, COLUMNS, ROWS) {
        let Some(byte) = events.pop_front() else { break };
        let key = nav(byte, &mut events);
        match screen.modal_key(byte, key, wait) {
            ModalStep::Done(reply) => {
                answer = reply;
                break;
            }
            _ => shown.push_str(&view(&mut screen)),
        }
    }
    screen.end_modal();
    screen.stop_work();
    let after = view(&mut screen);
    assert!(!after.contains(&heading));
    assert_eq!(after.contains("keep this draft"), keep_draft);
    (dialog_answer(answer), shown)
}

#[test]
fn select_confirm_input_and_editor_share_docked_modal_chrome() {
    let options = (0..10)
        .map(|n| format!("\"Option {n}\""))
        .collect::<Vec<_>>()
        .join(",");
    let select = format!(
        r#"{{"type":"extension_ui_request","id":"fixture-dialog","method":"select","title":"Modal fixture","options":[{options}]}}"#
    );
    let (answer, _) = run(&select, b"\x1b[6~\r", false, 0);
    assert_eq!(answer.at("value").as_text(), Some("Option 5"));
    let (answer, _) = run(
        r#"{"type":"extension_ui_request","id":"fixture-dialog","method":"confirm","title":"Modal fixture","message":"Please confirm this action"}"#,
        b"\x1b[B\r",
        false,
        0,
    );
    assert!(answer.flagged("confirmed", true));
    let (answer, _) = run(
        r#"{"type":"extension_ui_request","id":"fixture-dialog","method":"input","title":"Modal fixture","placeholder":"Your answer"}"#,
        "héllo\r".as_bytes(),
        true,
        0,
    );
    assert_eq!(answer.at("value").as_text(), Some("héllo"));
    let (answer, _) = run(
        r#"{"type":"extension_ui_request","id":"fixture-dialog","method":"editor","title":"Modal fixture","prefill":"existing text"}"#,
        b"!\r",
        false,
        0,
    );
    assert_eq!(answer.at("value").as_text(), Some("existing text!"));
}

#[test]
fn long_approval_details_are_reviewed_in_panel_before_allowing() {
    let approval = format!(
        r#"{{"type":"extension_ui_request","id":"fixture-dialog","method":"select","title":"Approval needed: review\nCommand: {}\nLAST_DETAIL","options":["Deny","Allow","Always Allow"]}}"#,
        "path-to-review ".repeat(100)
    );
    let (answer, shown) = run(
        &approval,
        b"\x1b[B\r\x1b[6~\x1b[6~\x1b[6~\r",
        false,
        0,
    );
    assert_eq!(answer.at("value").as_text(), Some("Allow"));
    assert!(shown.contains("review remaining details before Allow"));
    assert!(shown.contains("LAST_DETAIL"));
}

#[test]
fn modal_timeout_and_escape_cancel_without_default_approval() {
    let timed = r#"{"type":"extension_ui_request","id":"fixture-dialog","method":"select","title":"Modal fixture","options":["Deny","Allow","Always Allow"],"timeout":250}"#;
    let (answer, _) = run(timed, b"", false, 250);
    assert!(answer.flagged("cancelled", true));
    let confirm = r#"{"type":"extension_ui_request","id":"fixture-dialog","method":"confirm","title":"Modal fixture"}"#;
    let (answer, _) = run(confirm, b"\x1b", true, 0);
    assert!(answer.flagged("cancelled", true));
    let (answer, _) = run(confirm, b"\r", false, 0);
    assert!(answer.flagged("confirmed", false));
}

#[test]
fn a_frame_shows_the_conversation_and_the_composer() {
    let mut screen = drawn(false);
    assert!(screen.is_full());
    screen.status(&json(r#"{"model":{"provider":"demo","id":"one"},"sessionName":"Work"}"#));
    screen.user("question");
    screen.write("hibi › **answer**\n".as_bytes());
    let shown = view(&mut screen);
    assert!(shown.contains("✿ hibiscus   /   project"), "{shown}");
    assert!(shown.contains("demo/one  ·  Work"));
    assert!(shown.contains("┃  question"));
    assert!(shown.contains("│  answer"));
    assert!(shown.contains("│ ❯ "));
    assert!(shown.contains("Enter send · Ctrl+Enter newline · Ctrl+V image · ↑↓ input · /help"));
    let again = screen.render(COLUMNS, ROWS, 5, LINUX).unwrap();
    assert!(again.text.is_none(), "an unchanged view writes nothing");
    assert!(again.cursor.visible);
    assert_eq!((again.cursor.row, again.cursor.column), (21, 7));
    let mut modes: Vec<String> = Vec::new();
    screen.start_work(0);
    modes.push(view(&mut screen));
    screen.queue_update(&json(r#"{"steering":["a","b"],"followUp":["c","d"]}"#));
    modes.push(view(&mut screen));
    assert!(modes[0].contains("✿ Working… · 0s · Esc stop"));
    assert!(modes[1].contains("↳ Waiting · Steering: a"));
    assert!(modes[1].contains("↳ 1 more queued"));
    assert!(modes[1].contains("↪2 ▷2"));
    screen.stop_work();
    screen.set_disconnected(true);
    assert!(view(&mut screen).contains("Pi disconnected · /reconnect"));
    assert!(screen.suspend().unwrap().ends_with("\x1b[0 q"));
    assert!(screen.render(COLUMNS, ROWS, 0, LINUX).is_none());
    assert!(!screen.write(b"text"));
    assert_eq!(screen.flush(0), FlushStep::Output);
}

#[test]
fn streamed_text_is_drawn_at_most_every_frame() {
    let mut screen = drawn(false);
    assert_eq!(screen.flush(0), FlushStep::Render);
    screen.start_work(0);
    view(&mut screen);
    assert_eq!(screen.flush(32), FlushStep::Later);
    assert!(screen.paint_pending);
    assert!(!screen.tick_work(32, COLUMNS, ROWS));
    assert!(screen.tick_work(33, COLUMNS, ROWS));
    assert_eq!(screen.flush(33), FlushStep::Render);
    assert!(screen.tick_work(33, COLUMNS + 1, ROWS));
    assert_eq!(screen.unpainted(), "");
    assert!(screen.painter.resized((COLUMNS, ROWS)));
}

#[test]
fn long_transcripts_keep_their_newest_lines() {
    let mut screen = drawn(false);
    let line = "x".repeat(99) + "\n";
    for _ in 0..3000 {
        screen.write(line.as_bytes());
    }
    assert!(screen.transcript.bytes.len() <= 256 * 1024);
    assert!(screen.transcript.bytes.len() > 256 * 1024 - 100);
    assert!(screen.transcript.bytes.starts_with(b"xxx"));
    screen.write(b"bad \xff byte\n");
    assert!(screen.transcript.text().contains("bad \u{fffd} byte"));
}

#[test]
fn lists_answer_with_the_selected_place() {
    let mut screen = drawn(false);
    let items = vec!["one".to_owned(), "two".to_owned(), "three".to_owned()];
    assert!(screen.begin_select("Choose\x07", items.clone(), Some(0), ROWS));
    assert!(view(&mut screen).contains("✿ Choose"));
    assert_eq!(screen.select_key(b'j', Navigation::Other, ROWS), SelectStep::Continue);
    assert_eq!(screen.select_key(27, Navigation::Down, ROWS), SelectStep::Continue);
    assert_eq!(screen.select_key(b'k', Navigation::Other, ROWS), SelectStep::Continue);
    assert_eq!(screen.select_key(b'\r', Navigation::Other, ROWS), SelectStep::Done(Some(1)));
    assert!(screen.picker.is_none());
    assert!(screen.begin_select("Choose", items.clone(), None, ROWS));
    assert_eq!(
        screen.select_key(27, Navigation::EscapeWith(b'q'), ROWS),
        SelectStep::Done(None)
    );
    assert_eq!(screen.pending_key(), Some(b'q'));
    assert!(!screen.begin_select("Choose", Vec::new(), None, ROWS));
    assert!(!new().begin_select("Choose", items, None, ROWS));
}

#[test]
fn masked_answers_are_typed_and_forgotten() {
    let mut screen = new();
    screen.begin_answer(true);
    let mut pending = Vec::new();
    for byte in "sécre\x7fet".as_bytes() {
        assert!(matches!(
            screen.answer_key(&mut pending, *byte, Navigation::Other),
            AnswerStep::Continue
        ));
    }
    assert!(matches!(
        screen.answer_key(&mut pending, 25, Navigation::Other),
        AnswerStep::CopyLink
    ));
    let AnswerStep::Done(Some(text)) = screen.answer_key(&mut pending, 13, Navigation::Other) else {
        panic!("enter ends the answer");
    };
    assert_eq!(text, "sécret");
    screen.end_answer();
    assert!(draft(&screen).is_empty() && !screen.input.secret);
    assert!(matches!(
        screen.answer_key(&mut pending, 27, Navigation::Escape),
        AnswerStep::Done(None)
    ));
}

#[test]
fn early_submissions_come_back_and_notices_pass() {
    let mut screen = drawn(false);
    screen.start_work(0);
    let submission = DraftSubmission {
        text: "soon".into(),
        images: Vec::new(),
        mode: QueueMode::Steer,
    };
    screen.hold_queue(&submission, COLUMNS);
    assert_eq!(draft(&screen), "soon");
    assert!(screen.input.input_notice.as_deref().unwrap().starts_with("Pi is starting"));
    screen.queued(&submission);
    assert_eq!(
        screen.input.input_notice.as_deref(),
        Some("steering accepted by Pi · waiting for delivery")
    );
    screen.stop_work();
    assert!(screen.input.input_notice.is_none());
    assert_eq!(draft(&screen), "soon");
    screen.on_clipboard(Ok(json(r#"{"type":"image"}"#)));
    assert_eq!(screen.input.images.len(), 1);
    screen.on_clipboard(Err("nothing there".into()));
    assert_eq!(screen.input.clipboard_notice, "nothing there");
}

#[test]
fn frozen_activity_becomes_text() {
    let mut screen = drawn(false);
    screen.start_work(0);
    assert!(screen.tool_start("r", "read", "a.rs"));
    assert!(screen.tool_end("r", "read", "a.rs", false, None));
    let before = screen.transcript.text();
    screen.split_timeline();
    assert!(screen.transcript.timelines.is_empty());
    assert!(screen.transcript.text().contains("✓ Read · 1 file"));
    assert!(before.contains("Exploring"));
    let mut other = Timeline::default();
    other.tool_start("x", "bash", "ls");
    assert!(!other.lines().contains("ls"));
}

#[test]
fn diagnostics_have_the_last_row_to_themselves() {
    let mut screen = drawn(false);
    let before = view(&mut screen);
    screen.warn("Pi: Warning: No models match");
    let after = view(&mut screen);
    let rows: Vec<&str> = after.lines().collect();
    assert!(rows[ROWS - 1].contains("Pi: Warning: No models match"));
    assert!(rows[ROWS - 3].contains('╰'));
    assert_eq!(
        before.lines().take(ROWS - 1).collect::<Vec<_>>(),
        rows[..ROWS - 1]
    );
}

#[test]
fn a_wide_terminal_has_a_wide_composer() {
    let mut screen = drawn(false);
    set_draft(&mut screen, &"x".repeat(180));
    for (columns, width) in [(80, 76), (160, 156), (60, 56), (200, 196)] {
        let painting = screen.render(columns, ROWS, 0, LINUX).unwrap();
        let border = format!("╭{}╮", "─".repeat(width - 2));
        assert!(painting.lines.iter().any(|line| stripped(line).contains(&border)));
        if columns == 200 {
            let row = format!("  │ ❯ {}", "x".repeat(180));
            assert!(painting.lines.iter().any(|line| stripped(line).starts_with(&row)));
        }
        screen.painted(painting, columns, ROWS, 0);
    }
}

#[test]
fn a_search_for_sessions_keeps_what_is_typed() {
    let mut screen = drawn(false);
    let notice = screen.start_session_scan();
    assert!(notice.is_none());
    assert!(view(&mut screen).contains("Loading saved sessions"));
    screen.defer_session_typing("keé\x7feep\r".as_bytes(), COLUMNS, ROWS);
    screen.end_session_scan(notice);
    assert_eq!(draft(&screen), "keeep");
    assert!(!view(&mut screen).contains("Loading saved sessions"));
}

#[test]
fn a_draft_is_kept_while_the_context_is_compacted() {
    let mut screen = drawn(false);
    screen.start_work(0);
    for byte in b"draft" {
        active(&mut screen, *byte);
    }
    let ActiveStep::Submit(submission) = active(&mut screen, b'\r') else {
        panic!("Enter submits");
    };
    screen.keep_draft(&submission, COLUMNS);
    assert_eq!(draft(&screen), "draft");
    assert!(view(&mut screen).contains("draft kept"));
}
