use hibiscus::json::Json;
use hibiscus::keys::Navigation;
use hibiscus::modal::Modal;
use hibiscus::transport::{Inbox, Limits, Received, Shared};

fn json(text: &str) -> Json {
    let mut inbox = Inbox {
        shared: Shared::default(),
    };
    let limits = Limits {
        bytes: 64 * 1024 * 1024,
        records: 16,
    };
    assert!(inbox.shared.push(text.as_bytes().to_vec(), limits));
    match inbox.receive() {
        Received::Record(value) => value,
        _ => panic!("no record: {text}"),
    }
}

#[test]
fn approval_defaults_to_deny_and_long_commands_require_review() {
    let event = json(&format!(
        r#"{{"method":"select","title":"Approval needed: command\n{}","options":["Deny","Allow","Always Allow"]}}"#,
        "rm -rf example ".repeat(30)
    ));
    let mut modal = Modal::from_rpc(&event, 0).unwrap();
    let rows = modal.rows(40, 10);
    assert!(rows.len() <= 10);
    assert!(rows.iter().all(|row| row.text.chars().count() <= 40));
    assert_eq!(modal.key(b'\r', 0).unwrap().at("value").as_text(), Some("Deny"));
    modal.navigate(Navigation::Down);
    assert!(modal.key(b'\r', 0).is_none());
    for _ in 0..50 {
        modal.navigate(Navigation::ScrollPage(-1));
        modal.rows(40, 10);
    }
    assert_eq!(modal.key(b'\r', 0).unwrap().at("value").as_text(), Some("Allow"));
}

#[test]
fn confirm_timeout_and_masked_input_use_the_same_chrome() {
    let mut modal = Modal::from_rpc(
        &json(r#"{"method":"confirm","title":"Confirm?","message":"Details"}"#),
        0,
    )
    .unwrap();
    assert!(modal.key(b'\r', 0).unwrap().flagged("confirmed", false));
    let mut modal = Modal::from_rpc(
        &json(r#"{"method":"select","options":["Deny","Allow"],"timeout":0}"#),
        0,
    )
    .unwrap();
    assert!(modal.key(b'\r', 0).unwrap().flagged("cancelled", true));
    let mut input = Modal::input("Secret", "private", "", true);
    let rows = input.rows(40, 10);
    assert!(rows[0].text.contains("╭─ ✿ Secret"));
    assert!(!rows.iter().any(|row| row.text.contains("private")));
    assert_eq!(input.key(b'\r', 0).unwrap().at("value").as_text(), Some("private"));
}

#[test]
fn dialogs_expire_and_oversized_ones_are_not_shown() {
    let event = json(r#"{"method":"select","title":"Approval needed: x","options":["Deny","Allow"]}"#);
    let modal = Modal::from_rpc(&event, 1000).unwrap();
    assert!(!modal.expired(60_999));
    assert!(modal.expired(61_000));
    let long = json(&format!(r#"{{"method":"input","title":"{}"}}"#, "x".repeat(16_385)));
    assert!(Modal::from_rpc(&long, 0).is_none());
    assert!(Modal::from_rpc(&json(r#"{"method":"select","options":[]}"#), 0).is_none());
    let mut editor = Modal::from_rpc(&json(r#"{"method":"editor","title":"Edit","prefill":"abc"}"#), 0).unwrap();
    for byte in "é\x7fd".as_bytes() {
        assert!(editor.key(*byte, 0).is_none());
    }
    assert_eq!(editor.key(b'\r', 0).unwrap().at("value").as_text(), Some("abcd"));
}
