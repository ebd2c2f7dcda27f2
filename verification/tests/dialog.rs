use hibiscus::dialog::{response_for, Approval, ApprovalStep, DialogStep, Dialogs};
use hibiscus::json::Json;
use hibiscus::transport::{Inbox, Limits, Received, Shared};

fn json(text: &str) -> Json {
    let mut inbox = Inbox {
        shared: Shared::default(),
    };
    let limits = Limits {
        bytes: 64 * 1024 * 1024,
        records: 16,
    };
    assert!(inbox.shared.push(text.as_bytes().to_vec(), limits));
    match inbox.receive() {
        Received::Record(value) => value,
        _ => panic!("no record: {text}"),
    }
}

#[test]
fn approvals_default_to_no_and_select_requires_valid_option() {
    let confirm = json(r#"{"method":"confirm","title":"Run command","message":"rm something"}"#);
    assert!(response_for(&confirm, Some("")).flagged("confirmed", false));
    assert!(response_for(&confirm, Some("yes")).flagged("confirmed", true));
    let select = json(r#"{"method":"select","options":["Allow","Block"]}"#);
    assert_eq!(
        response_for(&select, Some("2")).at("value").as_text(),
        Some("Block")
    );
    assert!(response_for(&select, Some("3")).flagged("cancelled", true));
}

#[test]
fn dialog_responses_are_valid_rpc_and_noninteractive_is_safe() {
    let event = json(
        r#"{"type":"extension_ui_request","id":"abc","method":"confirm","title":"Approve","message":"tool"}"#,
    );
    let DialogStep::Cancelled(_, sent) = Dialogs.handle(&event, false) else {
        panic!("a dialog without a terminal is cancelled");
    };
    assert!(sent.ends_with('\n'));
    let reply = json(&sent);
    assert_eq!(reply.at("id").as_text(), Some("abc"));
    assert!(reply.flagged("cancelled", true));
    assert!(reply.get("confirmed").is_none());
}

#[test]
fn dialogs_in_a_terminal_are_asked_and_answered() {
    let event = json(
        r#"{"type":"extension_ui_request","id":"abc","method":"select","title":"Approval needed: x","options":["Deny","Allow"],"timeout":9000000}"#,
    );
    assert!(matches!(
        Dialogs.handle(&event, true),
        DialogStep::Ask(Some(_), Some(60_000))
    ));
    let reply = json(&Dialogs.answer(&event, Some("2")));
    assert_eq!(reply.at("value").as_text(), Some("Allow"));
    assert_eq!(reply.at("id").as_text(), Some("abc"));
    let warning = json(r#"{"type":"extension_error","error":"broken"}"#);
    assert!(matches!(Dialogs.handle(&warning, true), DialogStep::Show(text) if text.contains("broken")));
    assert!(matches!(Dialogs.handle(&warning, false), DialogStep::Notice(text) if text.starts_with("pi: ")));
    let note = json(r#"{"type":"extension_ui_request","method":"notify","message":"hello"}"#);
    assert!(matches!(Dialogs.handle(&note, false), DialogStep::Show(text) if text == "[pi: hello]\n"));
    let other = json(r#"{"type":"extension_ui_request","method":"setStatus"}"#);
    assert!(matches!(Dialogs.handle(&other, true), DialogStep::Ignore));
    assert!(matches!(Dialogs.handle(&json(r#"{"type":"agent_start"}"#), true), DialogStep::Ignore));
}

#[test]
fn plain_approvals_need_a_choice_and_enter() {
    let mut approval = Approval::new();
    assert!(!matches!(approval.key(Some(b'2')), ApprovalStep::Done(_)));
    assert!(matches!(approval.key(Some(b'\r')), ApprovalStep::Done(_)));
}
