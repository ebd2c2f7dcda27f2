use hibiscus::json::Json;
use hibiscus::transport::{Inbox, Limits, Received, Shared};
use hibiscus::ui::Ui;

fn json(text: &str) -> Json {
    let mut inbox = Inbox {
        shared: Shared::default(),
    };
    let limits = Limits {
        bytes: 64 * 1024 * 1024,
        records: 16,
    };
    assert!(inbox.shared.push(text.as_bytes().to_vec(), limits));
    match inbox.receive() {
        Received::Record(value) => value,
        _ => panic!("no record: {text}"),
    }
}

#[test]
fn plain_ui_has_no_control_codes_or_banner() {
    let ui = Ui::new(false, false, None);
    let mut out = String::new();
    out.push_str(&ui.header(Some("workspace")));
    out.push_str(&ui.prompt());
    out.push_str(&ui.session(&json(r#"{"model":{"provider":"test","id":"small"}}"#)));
    assert!(out.is_empty());
    out.push_str(&ui.info("Started new session."));
    assert_eq!(out, "Started new session.\n");
}

#[test]
fn interactive_status_uses_active_session_only() {
    let ui = Ui {
        interactive: true,
        color: false,
    };
    assert_eq!(
        ui.session(&json(
            r#"{"model":{"provider":"demo","id":"one"},"sessionName":"Current"}"#
        )),
        "  · demo/one  ·  Current\n"
    );
}

#[test]
fn session_label_cannot_inject_terminal_controls() {
    let ui = Ui {
        interactive: true,
        color: false,
    };
    assert_eq!(
        ui.session(&json(r#"{"sessionName":"bad\u001b[2J\nname"}"#)),
        "  · unconfigured/no model  ·  bad[2Jname\n"
    );
}

#[test]
fn color_needs_a_terminal_that_has_it() {
    assert!(Ui::new(true, false, Some("xterm")).color);
    assert!(!Ui::new(true, true, Some("xterm")).color);
    assert!(!Ui::new(true, false, Some("dumb")).color);
    assert!(!Ui::new(false, false, Some("xterm")).color);
    let ui = Ui::new(true, false, Some("xterm"));
    assert_eq!(ui.style("1", "x"), "\x1b[1mx\x1b[0m");
    assert!(ui.help().contains("/quit"));
    assert!(ui.header(None).contains("workspace"));
}
