use hibiscus::chat::{
    compacted, confirms_handoff, ends_chat, entered, explain, handoff_message, handoff_question,
    history, is_cancelled, is_open, leaves_login_to_pi, login_choices, login_message,
    logout_message, on_login_choice, prompt_command, refuse_handoff, removed, session_to_resume,
    shows_history, switch_command, wants_status, Action, Chat, HandoffEnd, LineKind, LoginStep,
    ScanKeys, Standing, MAY_RESTORE, NOT_SENT, RECONNECTED,
};
use hibiscus::auth::AuthOutcome;
use hibiscus::dialog::{DialogStep, Dialogs};
use hibiscus::error::{local, transport, ChatError};
use hibiscus::exchange::{Effect, Exchange, Submission};
use hibiscus::json::Json;
use hibiscus::keys::Navigation;
use hibiscus::logout::LogoutOutcome;
use hibiscus::queue::{DraftSubmission, QueueMode};
use hibiscus::rpc::SessionStart;
use hibiscus::transport::{Inbox, Limits, Received, Shared};
use hibiscus::ui::Ui;
use hibiscus::wire::write_command;
use std::sync::Arc;

const TERMINAL: Ui = Ui {
    interactive: true,
    color: false,
};

const OPEN: Standing = Standing {
    connected: true,
    saved: true,
    full: true,
};

const GONE: Standing = Standing {
    connected: false,
    saved: true,
    full: true,
};

fn json(text: &str) -> Json {
    let mut inbox = Inbox {
        shared: Shared::default(),
    };
    let limits = Limits {
        bytes: 64 * 1024 * 1024,
        records: 16,
    };
    assert!(inbox.shared.push(text.as_bytes().to_vec(), limits));
    match inbox.receive() {
        Received::Record(value) => value,
        _ => panic!("no record: {text}"),
    }
}

/// Run a prompt on what Pi answers; what is shown of it.
fn prompt(events: &[&str], interrupt_after: Option<usize>) -> (String, Result<bool, ChatError>) {
    let mut turn = Exchange::new("p", "prompt", TERMINAL);
    let mut shown = String::new();
    let mut queue = events.iter();
    let mut n = 0;
    loop {
        if interrupt_after == Some(n) && turn.wants_input() {
            turn.interrupt();
        }
        let end = match queue.next() {
            Some(line) => turn.on_event(&json(line), false, 0),
            None => Some(turn.on_closed()),
        };
        n += 1;
        for effect in turn.take_shown() {
            match effect {
                Effect::Work(text) | Effect::Write(text) => shown.push_str(&text),
                Effect::Notice(text) => shown.push_str(&text),
                Effect::Dialog(event) => {
                    if let DialogStep::Show(text) = Dialogs.handle(&event, true) {
                        shown.push_str(&text);
                    }
                }
                _ => {}
            }
        }
        if let Some(end) = end {
            return (shown, end);
        }
    }
}

const ACCEPTED: &str = r#"{"type":"response","id":"p","success":true}"#;
const RATE_LIMIT: &str = r#"{"type":"message_end","message":{"role":"assistant","stopReason":"error","errorMessage":"429 rate limit"}}"#;
const SUCCESS: &str = r#"{"type":"message_end","message":{"role":"assistant","stopReason":"stop","content":[{"type":"text","text":"SUCCESS_1"}]}}"#;
const SETTLED: &str = r#"{"type":"agent_settled"}"#;

#[test]
fn retry_success_and_nonfatal_warnings_are_not_failed_runs() {
    for scenario in ["retry", "warnings", "overflow_retry", "threshold_warning"] {
        let mut events = vec![ACCEPTED];
        match scenario {
            "retry" => events.extend([
                RATE_LIMIT,
                r#"{"type":"agent_end","willRetry":true}"#,
                r#"{"type":"auto_retry_start","attempt":1,"maxAttempts":1,"delayMs":10}"#,
            ]),
            "warnings" => events.extend([
                r#"{"type":"tool_execution_end","toolName":"read","isError":true}"#,
                r#"{"type":"extension_error","error":"Example extension warning"}"#,
                r#"{"type":"extension_ui_request","method":"notify","notifyType":"error","message":"Example notification"}"#,
            ]),
            "overflow_retry" => events.extend([
                r#"{"type":"message_end","message":{"role":"assistant","stopReason":"error","errorMessage":"context limit exceeded"}}"#,
                r#"{"type":"compaction_start","reason":"overflow"}"#,
                r#"{"type":"compaction_end","reason":"overflow","result":{},"willRetry":true}"#,
            ]),
            _ => events.push(
                r#"{"type":"compaction_end","reason":"threshold","errorMessage":"summary unavailable","aborted":false}"#,
            ),
        }
        events.push(SUCCESS);
        if scenario == "retry" {
            events.push(r#"{"type":"auto_retry_end","success":true,"attempt":1}"#);
        }
        events.push(SETTLED);
        let (shown, end) = prompt(&events, None);
        assert!(!end.unwrap(), "{scenario}");
        assert!(shown.contains("SUCCESS_1"), "{shown}");
        if scenario == "retry" {
            assert!(shown.contains("Pi retry 1/1"), "{shown}");
        } else if scenario == "warnings" {
            assert!(shown.contains("Example extension warning"), "{shown}");
        } else if scenario == "threshold_warning" {
            assert!(shown.contains("summary unavailable"), "{shown}");
        }
    }
}

#[test]
fn escape_during_retry_is_cancellation_not_a_fatal_error() {
    let events = [
        ACCEPTED,
        RATE_LIMIT,
        r#"{"type":"auto_retry_start","attempt":1,"maxAttempts":3,"delayMs":30000}"#,
        r#"{"type":"response","id":"p-clear","success":true}"#,
        r#"{"type":"response","id":"p-abort","success":true}"#,
        r#"{"type":"message_end","message":{"role":"assistant","stopReason":"aborted"}}"#,
        SETTLED,
    ];
    let (shown, end) = prompt(&events, Some(3));
    assert!(end.unwrap());
    assert!(shown.contains("Pi retry 1/3"), "{shown}");
    assert!(shown.contains("Stopped. You can keep chatting."), "{shown}");
}

#[test]
fn failed_reconnect_stays_disconnected_and_can_be_retried() {
    let mut chat = Chat::new();
    let mut prompts = 0;
    assert!(matches!(chat.route("hello", &Vec::new(), OPEN), Action::Prompt));
    prompts += 1;
    let partial = r#"{"type":"message_update","assistantMessageEvent":{"type":"text_delta","delta":"PARTIAL"}}"#;
    let (_, end) = prompt(&[ACCEPTED, partial], None);
    let error = end.unwrap_err();
    assert!(explain(&error, true, &TERMINAL).0);
    chat.settle(true, false, "hello", Vec::new(), None);
    assert!(matches!(
        chat.route("/reconnect", &Vec::new(), GONE),
        Action::Reconnect(false)
    ));
    let (gone, shown) = explain(&transport("Pi RPC closed"), false, &TERMINAL);
    assert!(gone);
    assert!(shown.contains("Error (Network)"), "{shown}");
    assert!(shown.contains("Use /reconnect; nothing is resent automatically."));
    assert!(
        matches!(chat.route("not sent", &Vec::new(), GONE), Action::Info(text) if text.contains("Nothing was sent."))
    );
    assert_eq!(prompts, 1);
    assert!(matches!(
        chat.route("/reconnect", &Vec::new(), GONE),
        Action::Reconnect(false)
    ));
    assert_eq!(RECONNECTED, "Reconnected to Pi. No prompt was resent.");
}

#[test]
fn quitting_a_disconnected_chat_is_clean() {
    assert_eq!(entered("/quit", 0, true).kind, LineKind::Quit);
    assert_eq!(entered(" /exit \n", 0, false).kind, LineKind::Quit);
}

#[test]
fn lines_are_trimmed_and_shown_with_their_attachments() {
    let line = entered("  hello  \n", 0, true);
    assert_eq!((line.message.as_str(), line.kind), ("hello", LineKind::Run));
    assert_eq!(line.shown.as_deref(), Some("hello"));
    let image = entered("", 2, true);
    assert_eq!(image.kind, LineKind::Run);
    assert_eq!(image.shown.as_deref(), Some("[2 image(s) attached]"));
    let both = entered("look", 1, true);
    assert_eq!(both.shown.as_deref(), Some("look\n[1 image(s) attached]"));
    assert_eq!(entered("look", 0, false).shown, None);
    assert_eq!(entered("  ", 0, true).kind, LineKind::Nothing);
}

#[test]
fn commands_are_routed_and_prompts_restored_once() {
    let none = Vec::new();
    let mut chat = Chat::new();
    assert!(matches!(chat.route("/help", &none, GONE), Action::Help));
    assert!(matches!(chat.route("/new", &none, OPEN), Action::New));
    assert!(matches!(chat.route("/continue", &none, OPEN), Action::Continue));
    assert!(matches!(chat.route("/models", &none, OPEN), Action::Models));
    assert!(matches!(chat.route("/thinking", &none, OPEN), Action::Thinking(None)));
    assert!(
        matches!(chat.route("/thinking  high ", &none, OPEN), Action::Thinking(Some(level)) if level == "high")
    );
    assert!(
        matches!(chat.route("/compact keep names", &none, OPEN), Action::Compact(Some(text)) if text == "keep names")
    );
    assert!(matches!(chat.route("/compactly", &none, OPEN), Action::Prompt));
    assert!(matches!(chat.route("/login", &none, OPEN), Action::Login));
    assert!(matches!(chat.route("/logout", &none, OPEN), Action::Logout));
    assert!(matches!(chat.route("/sessions", &none, OPEN), Action::Sessions));
    assert!(matches!(chat.route("/reconnect", &none, OPEN), Action::Info(_)));
    assert!(matches!(chat.route("/restore", &none, OPEN), Action::Info(text) if text.contains("No failed")));
    assert!(matches!(chat.route("/new", &none, GONE), Action::Info(NOT_SENT)));
    let unsaved = Standing { saved: false, ..GONE };
    assert!(matches!(chat.route("/reconnect", &none, unsaved), Action::Reconnect(true)));
    let image = Arc::new(json(r#"{"type":"image"}"#));
    chat.settle(true, false, "failed", vec![image], None);
    assert!(MAY_RESTORE.contains("/restore"));
    let plain = Standing { full: false, ..OPEN };
    assert!(matches!(chat.route("/restore", &none, plain), Action::Info(_)));
    assert!(
        matches!(chat.route("/restore", &none, GONE), Action::Restore(text, images) if text == "failed" && images.len() == 1)
    );
    assert!(matches!(chat.route("/restore", &none, GONE), Action::Info(_)));
    chat.settle(true, true, "sent", Vec::new(), Some(("refused".into(), Vec::new())));
    assert_eq!(chat.last_failed.as_ref().unwrap().0, "refused");
    chat.settle(false, false, "other", Vec::new(), None);
    assert_eq!(chat.last_failed.as_ref().unwrap().0, "refused");
    chat.forget();
    assert!(chat.last_failed.is_none());
}

#[test]
fn errors_are_explained_with_what_to_do() {
    let (gone, shown) = explain(&local("no file"), true, &TERMINAL);
    assert!(!gone);
    assert!(shown.starts_with("\n  · Error ("), "{shown}");
    assert!(shown.ends_with("  · Check the local configuration or command input. You can keep chatting.\n"));
    assert!(ends_chat(false, false) && ends_chat(true, true) && !ends_chat(true, false));
    assert!(wants_status(true, false, true, true) && wants_status(false, true, true, true));
    assert!(!wants_status(false, false, true, true) && !wants_status(true, true, false, true));
}

#[test]
fn sessions_are_opened_by_their_path() {
    let state = json(r#"{"sessionFile":"/s/a.jsonl"}"#);
    assert!(is_open(&state, "/s/a.jsonl") && !is_open(&state, "/s/b.jsonl"));
    assert_eq!(
        write_command(&switch_command("/s/b"), &Vec::new()).unwrap(),
        "{\"sessionPath\":\"/s/b\",\"type\":\"switch_session\"}\n"
    );
    assert_eq!(
        write_command(&prompt_command("hi"), &Vec::new()).unwrap(),
        "{\"message\":\"hi\",\"type\":\"prompt\"}\n"
    );
    assert!(is_cancelled(&json(r#"{"cancelled":true}"#)) && !is_cancelled(&json("{}")));
    assert_eq!(history(&json(r#"{"messages":[{},{}]}"#)).ok().unwrap().len(), 2);
    assert!(history(&json("{}")).is_err());
    assert!(matches!(session_to_resume(&state, true), SessionStart::Selected(path) if path == "/s/a.jsonl"));
    assert!(matches!(session_to_resume(&state, false), SessionStart::New));
    assert!(matches!(session_to_resume(&json("{}"), true), SessionStart::New));
    assert!(shows_history(&SessionStart::Latest) && !shows_history(&SessionStart::New));
    assert_eq!(
        compacted(&json(r#"{"tokensBefore":9,"estimatedTokensAfter":4}"#)),
        "Pi compacted context: 9 → ~4 tokens. Original history is saved."
    );
    assert_eq!(compacted(&json("{}")), "Pi compacted context. Original history is saved.");
}

#[test]
fn typing_during_a_search_is_kept_without_enter() {
    let mut keys = ScanKeys::new();
    for byte in b"draft\r\n" {
        assert!(!keys.key(*byte, Navigation::Other));
    }
    assert!(!keys.key(27, Navigation::Up));
    assert!(keys.key(27, Navigation::EscapeWith(b'x')));
    assert_eq!(keys.buffered, b"draftx");
    assert!(keys.key(27, Navigation::Escape) && keys.key(3, Navigation::Other));
}

#[test]
fn signing_in_and_out_is_explained() {
    assert!(!leaves_login_to_pi(true, true, true) && leaves_login_to_pi(true, false, true));
    assert_eq!(login_choices().len(), 2);
    assert_eq!(on_login_choice(Some(0)), LoginStep::Codex);
    assert_eq!(on_login_choice(Some(1)), LoginStep::Handoff);
    assert_eq!(on_login_choice(None), LoginStep::Nothing);
    assert_eq!(login_message(AuthOutcome::Cancelled), "Codex sign-in cancelled.");
    assert!(login_message(AuthOutcome::Unavailable).contains("Pi's TUI"));
    let outcome = LogoutOutcome::Removed("openai".into(), true);
    let shown = removed(&outcome, &TERMINAL);
    assert!(shown.contains("Removed stored credentials for openai."));
    assert!(shown.contains("could not synchronize"));
    assert!(logout_message(&outcome).starts_with("Logout complete."));
    assert!(removed(&LogoutOutcome::Empty, &TERMINAL).is_empty());
    assert!(refuse_handoff("/login", false, true).unwrap().starts_with("/login requires"));
    assert!(refuse_handoff("/login", true, true).is_none());
    assert_eq!(handoff_question("/login", true), "Hand off to Pi for /login?");
    assert_eq!(handoff_question("/login", false), "Hand off to Pi for /login? [y/N] ");
    assert!(confirms_handoff(Some(1), None) && confirms_handoff(None, Some("YES")));
    assert!(!confirms_handoff(Some(0), None) && !confirms_handoff(None, Some("")));
    assert_eq!(
        handoff_message(HandoffEnd::Exited("exit status: 3")),
        "Pi exited with exit status: 3; chat is unchanged.\n"
    );
    assert!(handoff_message(HandoffEnd::Success).starts_with("Returned from Pi."));
    assert_eq!(handoff_message(HandoffEnd::Failed("gone")), "Pi handoff failed: gone\n");
}

fn queue(turn: &mut Exchange, text: &str) -> String {
    let submission = DraftSubmission {
        text: text.into(),
        images: Vec::new(),
        mode: QueueMode::Steer,
    };
    match turn.submit(submission) {
        Submission::Send(id, line, submission) => {
            assert!(line.contains("\"streamingBehavior\":\"steer\""));
            turn.sent(id.clone(), submission);
            id
        }
        _ => panic!("the submission is sent"),
    }
}

#[test]
fn a_late_answer_to_a_submission_ends_a_settled_turn() {
    for drained_last in [false, true] {
        let mut turn = Exchange::new("p", "prompt", TERMINAL);
        let step = |turn: &mut Exchange, text: &str| turn.on_event(&json(text), false, 0);
        assert!(step(&mut turn, ACCEPTED).is_none());
        let id = queue(&mut turn, "steer now");
        let waiting = r#"{"type":"queue_update","steering":["steer now"],"followUp":[]}"#;
        let empty = r#"{"type":"queue_update","steering":[],"followUp":[]}"#;
        assert!(step(&mut turn, if drained_last { waiting } else { empty }).is_none());
        assert!(step(&mut turn, SETTLED).is_none());
        let answer = format!(r#"{{"type":"response","id":"{id}","success":true}}"#);
        let end = step(&mut turn, &answer);
        let end = if drained_last {
            assert!(end.is_none());
            step(&mut turn, empty)
        } else {
            end
        };
        assert!(!end.unwrap().ok().unwrap());
    }
}

#[test]
fn a_new_run_after_a_settlement_is_waited_for() {
    let mut turn = Exchange::new("p", "prompt", TERMINAL);
    let step = |turn: &mut Exchange, text: &str| turn.on_event(&json(text), false, 0);
    step(&mut turn, ACCEPTED);
    let id = queue(&mut turn, "more");
    step(&mut turn, SETTLED);
    step(&mut turn, r#"{"type":"agent_start"}"#);
    let answer = format!(r#"{{"type":"response","id":"{id}","success":true}}"#);
    assert!(step(&mut turn, &answer).is_none());
    assert!(step(&mut turn, SETTLED).is_some());
}

#[test]
fn submissions_are_held_rejected_and_handed_back() {
    let mut turn = Exchange::new("p", "prompt", TERMINAL);
    let submission = |text: &str| DraftSubmission {
        text: text.into(),
        images: Vec::new(),
        mode: QueueMode::FollowUp,
    };
    assert!(matches!(turn.submit(submission("early")), Submission::Hold(_)));
    turn.on_event(&json(ACCEPTED), false, 0);
    turn.unsent(submission("lost"));
    for n in 0..16 {
        queue(&mut turn, &format!("m{n}"));
    }
    assert!(matches!(turn.submit(submission("one more")), Submission::Reject(_, _)));
    assert!(turn.on_closed().is_err());
    let returned: Vec<String> = turn
        .take_shown()
        .into_iter()
        .filter_map(|effect| match effect {
            Effect::RejectedQueue(submission, _) => Some(submission.text),
            _ => None,
        })
        .collect();
    assert_eq!(returned, ["lost", "m15"]);
}
