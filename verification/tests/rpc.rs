use hibiscus::dialog::{DialogStep, Dialogs};
use hibiscus::error::{ChatError, RecoveryAction};
use hibiscus::exchange::{Effect, Exchange, Submission};
use hibiscus::json::Json;
use hibiscus::keys::{key_action, EscapeKey, KeyAction, Navigation};
use hibiscus::queue::{DraftSubmission, QueueMode, SharedImage};
use hibiscus::rpc::{request_timed_out, Answer, Closing, Link, SessionStart};
use hibiscus::screen::Screen;
use hibiscus::tools::{show_edit_diff, tool_label};
use hibiscus::transport::{Fed, FrameReader, Inbox, Limits, Received, Shared};
use hibiscus::ui::Ui;
use hibiscus::wire::{check_record, write_command};
use std::collections::VecDeque;
use std::sync::Arc;

const PLAIN: Ui = Ui {
    interactive: false,
    color: false,
};

fn json(text: &str) -> Json {
    let mut inbox = Inbox {
        shared: Shared::default(),
    };
    let limits = Limits {
        bytes: 64 * 1024 * 1024,
        records: 16,
    };
    assert!(inbox.shared.push(text.as_bytes().to_vec(), limits));
    match inbox.receive() {
        Received::Record(value) => value,
        _ => panic!("no record: {text}"),
    }
}

fn records(text: &str) -> VecDeque<Json> {
    text.lines().map(json).collect()
}

fn escape_key(keys: &mut VecDeque<u8>) -> Navigation {
    let mut escape = EscapeKey::new();
    loop {
        if let Some(key) = escape.feed(keys.pop_front()) {
            return key;
        }
    }
}

/// What is sent, shown and rejected in an exchange.
#[derive(Default)]
struct Outcome {
    sent: String,
    shown: String,
    rejected: Vec<(String, String)>,
}

fn apply(turn: &mut Exchange, out: &mut Outcome) {
    for effect in turn.take_shown() {
        match effect {
            Effect::Write(text) => out.shown.push_str(&text),
            Effect::Dialog(event) => {
                if let DialogStep::Cancelled(text, line) = Dialogs.handle(&event, false) {
                    out.shown.push_str(&text);
                    out.sent.push_str(&line);
                }
            }
            Effect::RejectedQueue(submission, error) => {
                out.rejected.push((submission.text.clone(), error));
            }
            _ => {}
        }
    }
}

fn exchange(
    out: &mut Outcome,
    records: &mut VecDeque<Json>,
    keys: &mut VecDeque<u8>,
    id: &str,
    kind: &str,
) -> Result<bool, ChatError> {
    let mut turn = Exchange::new(id, kind, PLAIN);
    loop {
        while turn.wants_input() {
            let Some(key) = keys.pop_front() else { break };
            let nav = if key == 27 {
                escape_key(keys)
            } else {
                Navigation::Other
            };
            if key_action(key, nav) == KeyAction::Stop {
                out.sent.push_str(&turn.interrupt());
            }
        }
        let end = match records.pop_front() {
            Some(event) => turn.on_event(&event, false, 0),
            None => Some(turn.on_closed()),
        };
        apply(&mut turn, out);
        if let Some(end) = end {
            return end;
        }
    }
}

fn run_exchange(text: &str, id: &str, kind: &str, out: &mut Outcome) -> Result<bool, ChatError> {
    exchange(out, &mut records(text), &mut VecDeque::new(), id, kind)
}

#[test]
fn newest_unacknowledged_queue_is_preserved_for_explicit_review() {
    let mut screen = Screen::new(false, false, None, false, true, None, 80, 24);
    let mut turn = Exchange::new("hibiscus-1", "prompt", PLAIN);
    for n in [2, 10] {
        turn.sent(
            format!("hibiscus-1-queued-{n}"),
            DraftSubmission {
                text: format!("draft {n}"),
                images: vec![Arc::new(json(r#"{"type":"image","data":"synthetic"}"#))],
                mode: QueueMode::Steer,
            },
        );
    }
    let _ = turn.on_failure(request_timed_out());
    for effect in turn.take_shown() {
        if let Effect::RejectedQueue(submission, error) = effect {
            screen.rejected_queue(&submission, &error, 80);
        }
    }
    let (text, images) = screen.take_rejected_queue().unwrap();
    assert_eq!(text, "draft 10");
    assert_eq!(images[0].at("data").as_text(), Some("synthetic"));
    assert_eq!(turn.pending_queued.len(), 1);
}

#[test]
fn borrowed_images_serialize_as_one_jsonl_record_and_preserve_originals() {
    let command = json(r#"{"id":"request","type":"prompt","message":"line one\nline two"}"#);
    let data = "a".repeat(1024 * 1024);
    let images: Vec<SharedImage> = vec![Arc::new(json(&format!(
        r#"{{"type":"image","mimeType":"image/png","data":"{data}"}}"#
    )))];
    let pointer = images[0].at("data").as_text().unwrap().as_ptr();
    let recovery = images.clone();
    assert!(Arc::ptr_eq(&images[0], &recovery[0]));
    let wire = write_command(&command, &images).unwrap();
    assert_eq!(wire.bytes().filter(|&byte| byte == b'\n').count(), 1);
    let decoded: serde_json::Value = serde_json::from_str(&wire).unwrap();
    assert_eq!(decoded["images"].as_array().unwrap().len(), 1);
    assert_eq!(decoded["images"][0]["data"].as_str(), Some(data.as_str()));
    assert_eq!(decoded["images"][0]["mimeType"].as_str(), Some("image/png"));
    assert_eq!(decoded["images"][0]["type"].as_str(), Some("image"));
    assert_eq!(decoded["message"].as_str(), command.at("message").as_text());
    assert_eq!(images[0].at("data").as_text().unwrap().as_ptr(), pointer);
    assert!(command.get("images").is_none());
    let wire = write_command(&command, &Vec::new()).unwrap();
    assert!(serde_json::from_str::<serde_json::Value>(&wire)
        .unwrap()
        .get("images")
        .is_none());
    let bare = write_command(&json("{}"), &images).unwrap();
    assert!(bare.starts_with("{\"images\":["));
    assert!(write_command(&json("[]"), &images).is_none());
}

#[test]
fn edit_preview_uses_result_details_and_limits_output() {
    let diff = (0..45)
        .map(|n| format!("+{n} line"))
        .collect::<Vec<_>>()
        .join("\\n");
    let output = show_edit_diff(
        &PLAIN,
        "edit · file.rs",
        &json(&format!(r#"{{"details":{{"diff":"{diff}"}}}}"#)),
    );
    assert!(output.contains("diff · file.rs"));
    assert!(output.contains("+39 line"));
    assert!(!output.contains("+40 line"));
    assert!(output.contains("5 more diff lines"));
    let empty = show_edit_diff(&PLAIN, "edit · file.rs", &json(r#"{"details":{}}"#));
    assert!(empty.is_empty());
}

#[test]
fn tool_labels_include_file_paths_but_not_shell_commands_or_controls() {
    assert_eq!(
        tool_label("read", &json(r#"{"path":"src/README.md"}"#)),
        "read · src/README.md"
    );
    assert_eq!(
        tool_label("write", &json("{\"path\":\"bad\\u001b[2J\\nname\"}")),
        "write · bad[2Jname"
    );
    assert_eq!(
        tool_label("bash", &json(r#"{"command":"echo SECRET"}"#)),
        "bash"
    );
}

#[test]
fn mouse_wheel_escape_does_not_abort() {
    let mut keys: VecDeque<u8> = b"\x1b[<64;10;10M\x1b[5~".iter().copied().collect();
    let mut scrolled = Vec::new();
    let mut active_keys = |keys: &mut VecDeque<u8>| {
        while let Some(key) = keys.pop_front() {
            let nav = if key == 27 {
                escape_key(keys)
            } else {
                Navigation::Other
            };
            match key_action(key, nav) {
                KeyAction::Ignore => {}
                KeyAction::Stop => return true,
                KeyAction::Scroll(nav) => scrolled.push(nav),
            }
        }
        false
    };
    assert!(!active_keys(&mut keys));
    keys.push_back(27);
    assert!(active_keys(&mut keys));
    assert_eq!(
        scrolled,
        [Navigation::MouseScroll(3, 10), Navigation::ScrollPage(1)]
    );
}

#[test]
fn prompt_stream_waits_for_settled_and_supports_next_command() {
    let events = "{\"type\":\"response\",\"id\":\"other\",\"success\":true}\n\
{\"type\":\"response\",\"id\":\"hibiscus-1\",\"success\":true}\n\
{\"type\":\"message_update\",\"assistantMessageEvent\":{\"type\":\"text_delta\",\"delta\":\"hello\"}}\n\
{\"type\":\"agent_end\"}\n\
{\"type\":\"message_update\",\"assistantMessageEvent\":{\"type\":\"text_delta\",\"delta\":\" world\"}}\n\
{\"type\":\"agent_settled\"}\n\
{\"type\":\"response\",\"id\":\"hibiscus-2\",\"success\":true,\"data\":{\"cancelled\":false}}\n";
    let mut out = Outcome::default();
    let mut rx = records(events);
    let mut keys = VecDeque::new();
    exchange(&mut out, &mut rx, &mut keys, "hibiscus-1", "prompt").unwrap();
    assert_eq!(out.shown, "hello world\n");
    exchange(&mut out, &mut rx, &mut keys, "hibiscus-2", "new_session").unwrap();
    assert!(rx.pop_front().is_none());
}

#[test]
fn rejected_prompt_and_failed_agent_are_errors() {
    let rejected = "{\"type\":\"response\",\"id\":\"hibiscus-1\",\"success\":false,\"error\":\"no model\"}\n";
    assert!(
        run_exchange(rejected, "hibiscus-1", "prompt", &mut Outcome::default())
            .unwrap_err()
            .display()
            .contains("no model")
    );
    let failed = "{\"type\":\"response\",\"id\":\"hibiscus-1\",\"success\":true}\n\
{\"type\":\"message_end\",\"message\":{\"role\":\"assistant\",\"stopReason\":\"error\"}}\n\
{\"type\":\"agent_settled\"}\n";
    assert!(run_exchange(failed, "hibiscus-1", "prompt", &mut Outcome::default()).is_err());
}

#[test]
fn extension_dialog_is_cancelled_without_terminal() {
    let events = "{\"type\":\"extension_ui_request\",\"id\":\"dialog-1\",\"method\":\"confirm\"}\n\
{\"type\":\"response\",\"id\":\"hibiscus-1\",\"success\":true}\n\
{\"type\":\"agent_settled\"}\n";
    let mut out = Outcome::default();
    run_exchange(events, "hibiscus-1", "prompt", &mut out).unwrap();
    let response = json(&out.sent);
    assert_eq!(response.at("id").as_text(), Some("dialog-1"));
    assert!(response.flagged("cancelled", true));
}

#[test]
fn escape_sends_clear_then_abort_and_preserves_session() {
    let events = "{\"type\":\"response\",\"id\":\"hibiscus-1\",\"success\":true}\n\
{\"type\":\"response\",\"id\":\"hibiscus-1-clear\",\"success\":true}\n\
{\"type\":\"response\",\"id\":\"hibiscus-1-abort\",\"success\":true}\n\
{\"type\":\"message_end\",\"message\":{\"role\":\"assistant\",\"stopReason\":\"aborted\"}}\n\
{\"type\":\"agent_settled\"}\n\
{\"type\":\"response\",\"id\":\"hibiscus-2\",\"success\":true,\"data\":{\"cancelled\":false}}\n";
    let mut rx = records(events);
    let mut keys: VecDeque<u8> = [27].into_iter().collect();
    let mut out = Outcome::default();
    assert!(exchange(&mut out, &mut rx, &mut keys, "hibiscus-1", "prompt").unwrap());
    assert!(!exchange(&mut out, &mut rx, &mut keys, "hibiscus-2", "new_session").unwrap());
    let commands: Vec<String> = out
        .sent
        .lines()
        .map(|line| json(line).at("type").as_text().unwrap().to_owned())
        .collect();
    assert_eq!(commands, ["clear_queue", "abort"]);
}

#[test]
fn rejected_preflight_drains_already_sent_cancellation_before_returning() {
    let mut rx = records(
        "{\"type\":\"response\",\"id\":\"p\",\"success\":false,\"error\":\"no model\"}\n\
{\"type\":\"response\",\"id\":\"p-clear\",\"success\":true}\n\
{\"type\":\"response\",\"id\":\"p-abort\",\"success\":true}\n\
{\"type\":\"response\",\"id\":\"next\",\"success\":true}\n",
    );
    let mut keys: VecDeque<u8> = [27].into_iter().collect();
    assert!(exchange(&mut Outcome::default(), &mut rx, &mut keys, "p", "prompt").is_err());
    assert_eq!(rx.pop_front().unwrap().at("id").as_text(), Some("next"));
}

#[test]
fn silent_command_deadline_and_invalid_records_require_reconnection() {
    assert_eq!(request_timed_out().recovery(), RecoveryAction::Reconnect);
    for record in [
        "{}",
        r#"{"type":"response","success":"yes"}"#,
        r#"{"type":"response","success":false,"command":"parse"}"#,
    ] {
        assert!(check_record(&json(record)).is_err());
    }
    assert!(check_record(&json(r#"{"type":"future_event"}"#)).is_ok());
    let mut inbox = Inbox {
        shared: Shared::default(),
    };
    let limits = Limits {
        bytes: 64 * 1024 * 1024,
        records: 16,
    };
    assert!(inbox.shared.push(b"private invalid payload\n".to_vec(), limits));
    let Received::Failed(error) = inbox.receive() else {
        panic!("an invalid record is an error");
    };
    assert!(!error.display().contains("private invalid payload"));
}

#[test]
fn strict_lf_framing_accepts_unicode_separators() {
    let stream =
        "{\"type\":\"message_update\",\"text\":\"a\u{2028}b\"}\n{\"type\":\"agent_settled\"}\n"
            .as_bytes();
    let mut reader = FrameReader::new();
    let Fed::Frame(first, used) = reader.feed(stream, 1 << 20) else {
        panic!("a record ends at the line feed");
    };
    let first = json(std::str::from_utf8(&first).unwrap());
    assert_eq!(first.at("text").as_text(), Some("a\u{2028}b"));
    let Fed::Frame(second, _) = reader.feed(&stream[used..], 1 << 20) else {
        panic!("a record ends at the line feed");
    };
    let second = json(std::str::from_utf8(&second).unwrap());
    assert_eq!(second.at("type").as_text(), Some("agent_settled"));
}

#[test]
fn submissions_are_held_sent_and_bounded() {
    let draft = |text: &str| DraftSubmission {
        text: text.into(),
        images: Vec::new(),
        mode: QueueMode::FollowUp,
    };
    let mut turn = Exchange::new("p", "prompt", PLAIN);
    assert!(matches!(turn.submit(draft("early")), Submission::Hold(_)));
    assert!(turn
        .on_event(&json(r#"{"type":"response","id":"p","success":true}"#), false, 0)
        .is_none());
    for n in 1..=16 {
        let Submission::Send(id, line, submission) = turn.submit(draft("later")) else {
            panic!("an accepted prompt takes messages");
        };
        assert_eq!(id, format!("p-queued-{n}"));
        let command = json(&line);
        assert_eq!(command.at("streamingBehavior").as_text(), Some("followUp"));
        assert_eq!(command.at("message").as_text(), Some("later"));
        turn.sent(id, submission);
    }
    assert!(
        matches!(turn.submit(draft("more")), Submission::Reject(_, error) if error == "Too many pending queue requests")
    );
}

#[test]
fn connections_number_their_commands_and_take_only_their_own_answers() {
    let mut link = Link::new(&SessionStart::New);
    assert!(link.is_connected() && !link.has_saved_session());
    let command = json(r#"{"type":"get_state"}"#);
    let prepared = link.prepare(&command).unwrap();
    let other = json(r#"{"type":"response","id":"other","success":true}"#);
    assert!(matches!(
        link.on_record(&other, &prepared.id, "get_state", &command),
        Answer::Other(_)
    ));
    let own = json(&format!(
        r#"{{"type":"response","id":"{}","success":true,"data":{{"sessionFile":"/s/a.jsonl"}}}}"#,
        prepared.id
    ));
    let Answer::Done(Ok(data)) = link.on_record(&own, &prepared.id, "get_state", &command) else {
        panic!("the own response answers");
    };
    assert_eq!(data.at("sessionFile").as_text(), Some("/s/a.jsonl"));
    assert!(link.has_saved_session());
    let next = link.prepare(&command).unwrap();
    assert_ne!(next.id, prepared.id);
    let failed = json(&format!(
        r#"{{"type":"response","id":"{}","success":false,"error":"nope"}}"#,
        next.id
    ));
    assert!(matches!(
        link.on_record(&failed, &next.id, "get_state", &command),
        Answer::Done(Err(_))
    ));
    assert!(link.disconnect(true));
    assert!(!link.is_connected());
    assert!(link.prepare(&command).is_err());
    assert!(matches!(link.close(false), Closing::Nothing | Closing::Uncertain | Closing::Disconnect));
    assert_eq!(
        SessionStart::Selected("/s/a".into()).arguments(),
        ["--session", "/s/a"]
    );
    assert_eq!(SessionStart::Latest.arguments(), ["--continue"]);
    assert!(SessionStart::New.arguments().is_empty());
}

#[test]
fn an_identifier_stands_for_one_submission_and_one_tool_call() {
    let mut turn = Exchange::new("p", "prompt", PLAIN);
    for text in ["first", "second"] {
        turn.sent(
            "p-queued-1".to_owned(),
            DraftSubmission {
                text: text.to_owned(),
                images: Vec::new(),
                mode: QueueMode::FollowUp,
            },
        );
    }
    assert_eq!(turn.pending_queued.len(), 1);
    assert_eq!(turn.pending_queued[0].1.text, "second");
    for path in ["a", "b"] {
        let event = format!(
            r#"{{"type":"tool_execution_start","toolCallId":"t","toolName":"read","args":{{"path":"{path}"}}}}"#
        );
        assert!(turn.on_event(&json(&event), false, 0).is_none());
    }
    assert_eq!(turn.active_tools.len(), 1);
    assert_eq!(turn.active_tools[0].1, "read · b");
}
