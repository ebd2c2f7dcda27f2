use hibiscus::json::Json;
use hibiscus::sessions::{
    agent_dir, default_dir, is_candidate, is_header_line, menu, named_dir, newest_first, pick,
    resolve, settings_dir, show_recent_with, Inspection, SessionInfo,
};
use hibiscus::transport::{Inbox, Limits, Received, Shared};
use hibiscus::ui::Ui;

fn json(text: &str) -> Json {
    let mut inbox = Inbox {
        shared: Shared::default(),
    };
    let limits = Limits {
        bytes: 64 * 1024 * 1024,
        records: 16,
    };
    assert!(inbox.shared.push(text.as_bytes().to_vec(), limits));
    match inbox.receive() {
        Received::Record(value) => value,
        _ => panic!("no record: {text}"),
    }
}

fn show_recent(messages: &[Json]) -> String {
    let ui = Ui {
        interactive: false,
        color: false,
    };
    show_recent_with(&messages.iter().map(Json::copy).collect(), &ui)
}

#[test]
fn history_shows_image_placeholders_without_base64() {
    let output = show_recent(&[json(
        r#"{"role":"user","content":[{"type":"image","mimeType":"image/png","data":"private-image-bytes"}]}"#,
    )]);
    assert!(output.contains("you> [image attached]"));
    assert!(!output.contains("private-image-bytes"));
}

#[test]
fn interactive_history_preserves_user_and_agent_roles() {
    let messages = vec![
        json(r#"{"role":"user","content":"question\ncontinued"}"#),
        json(r#"{"role":"assistant","content":"answer"}"#),
    ];
    let output = show_recent_with(&messages, &Ui::new(true, false, None));
    assert!(output.contains("you ›"), "{output}");
    assert!(output.contains("hibi ›"), "{output}");
    assert_eq!(output.matches("you ›").count(), 1);
    assert_eq!(output.matches("hibi ›").count(), 1);
}

#[test]
fn shows_only_last_five_user_turns_and_their_replies() {
    let mut messages = vec![json(r#"{"role":"system","content":"secret"}"#)];
    for i in 0..7 {
        messages.push(json(&format!(
            r#"{{"role":"user","content":"question {i}"}}"#
        )));
        messages.push(json(&format!(
            r#"{{"role":"assistant","content":[{{"type":"thinking","thinking":"hidden"}},{{"type":"text","text":"answer {i}"}},{{"type":"toolCall","name":"bash"}}]}}"#
        )));
        messages.push(json(
            r#"{"role":"toolResult","content":[{"type":"text","text":"private"}]}"#,
        ));
    }
    let output = show_recent(&messages);
    assert!(!output.contains("question 1"));
    assert!(!output.contains("answer 1"));
    assert!(output.contains("you> question 2\nassistant> answer 2"));
    assert!(output.contains("you> question 6\nassistant> answer 6"));
    assert!(!output.contains("secret"));
    assert!(!output.contains("private"));
    assert!(!output.contains("hidden"));
}

fn inspect(lines: &[&str], cwd: &str) -> Option<String> {
    if !is_header_line(lines.first()?, Some(cwd)) {
        return None;
    }
    let mut inspection = Inspection::new();
    for line in &lines[1..] {
        inspection.note_line(line);
    }
    inspection.name()
}

#[test]
fn lists_only_this_directory_and_sorts_newest_first() {
    let first = r#"{"type":"message","message":{"role":"user","content":"first"}}"#;
    let second = r#"{"type":"message","message":{"role":"user","content":"second"}}"#;
    let private = r#"{"type":"message","message":{"role":"user","content":"private"}}"#;
    let files = [
        ("a", r#"{"type":"session","id":"a","cwd":"/project"}"#, Some(first), 1),
        ("b", r#"{"type":"session","id":"b","cwd":"/project"}"#, Some(second), 2),
        ("other", r#"{"type":"session","id":"other","cwd":"/unrelated"}"#, Some(private), 3),
        ("empty", r#"{"type":"session","id":"empty","cwd":"/project"}"#, None, 4),
    ];
    let mut found = Vec::new();
    for (name, header, message, modified) in files {
        assert!(is_candidate(Some("jsonl"), true));
        let lines: Vec<&str> = std::iter::once(header).chain(message).collect();
        if let Some(title) = inspect(&lines, "/project") {
            found.push(SessionInfo {
                path: format!("/sessions/{name}.jsonl"),
                title,
                modified,
            });
        }
    }
    let found = newest_first(found);
    assert_eq!(found.len(), 2);
    assert_eq!(found[0].title, "second");
    assert_eq!(found[1].title, "first");
}

#[test]
fn equally_old_sessions_are_ordered_by_path() {
    let found = newest_first(
        ["/s/b", "/s/a", "/s/c", "/s/ab"]
            .into_iter()
            .map(|path| SessionInfo {
                path: path.into(),
                title: String::new(),
                modified: 7,
            })
            .collect(),
    );
    let paths: Vec<&str> = found.iter().map(|s| s.path.as_str()).collect();
    assert_eq!(paths, ["/s/a", "/s/ab", "/s/b", "/s/c"]);
}

#[test]
fn picker_handles_cancel_and_selection() {
    let sessions = vec![SessionInfo {
        path: "a.jsonl".into(),
        title: "one".into(),
        modified: 0,
    }];
    assert_eq!(
        pick(Some("1\n"), sessions.len())
            .unwrap()
            .map(|i| sessions[i].path.as_str()),
        Some("a.jsonl")
    );
    assert!(pick(Some("\n"), sessions.len()).unwrap().is_none());
    assert!(pick(Some("2\n"), sessions.len()).is_err());
    assert_eq!(pick(None, 1), Ok(None));
    assert_eq!(pick(Some("0"), 1), Err("invalid session number"));
    assert_eq!(pick(Some("x"), 1), Err("enter a session number from the list"));
    assert_eq!(
        menu(&sessions),
        "Sessions for this directory (most recently updated first):\n  1. one\n"
    );
    assert_eq!(menu(&Vec::new()), "No saved sessions for this directory.\n");
}

#[test]
fn names_of_sessions_come_from_their_title_or_first_message() {
    let header = r#"{"type":"session","id":"a","cwd":"/p"}"#;
    let message = r#"{"type":"message","message":{"role":"user","content":[{"type":"text","text":"hello"},{"type":"image"}]}}"#;
    let titled = r#"{"type":"session_info","name":"Named"}"#;
    let reply = r#"{"type":"message","message":{"role":"assistant","content":"hi"}}"#;
    assert_eq!(
        inspect(&[header, "not json", message], "/p").as_deref(),
        Some("hello [image attached]")
    );
    assert_eq!(inspect(&[header, message, titled], "/p").as_deref(), Some("Named"));
    assert_eq!(inspect(&[header, reply], "/p").as_deref(), Some("(no messages)"));
    assert_eq!(inspect(&[header, titled], "/p"), None);
    assert_eq!(inspect(&["{}", message], "/p"), None);
    assert!(!is_candidate(Some("json"), true));
    assert!(!is_candidate(Some("jsonl"), false));
    assert!(!is_candidate(None, true));
}

#[test]
fn session_directory_follows_the_settings() {
    assert_eq!(resolve("/x", "/cwd"), "/x");
    assert_eq!(resolve("x", "/cwd"), "/cwd/x");
    assert_eq!(named_dir(Some("saved"), "/cwd").as_deref(), Some("/cwd/saved"));
    assert_eq!(named_dir(Some(""), "/cwd"), None);
    assert_eq!(named_dir(None, "/cwd"), None);
    assert_eq!(agent_dir(Some("a"), None, "/cwd").unwrap(), "/cwd/a");
    assert_eq!(agent_dir(None, Some("/home/u"), "/cwd").unwrap(), "/home/u/.pi/agent");
    assert_eq!(agent_dir(None, None, "/cwd"), Err("HOME is not set"));
    assert_eq!(
        settings_dir(br#"{"sessionDir":"mine"}"#, "/cwd"),
        Ok(Some("/cwd/mine".to_owned()))
    );
    assert_eq!(settings_dir(br#"{"sessionDir":""}"#, "/cwd"), Ok(None));
    assert_eq!(settings_dir(b"{}", "/cwd"), Ok(None));
    assert_eq!(settings_dir(b"{", "/cwd"), Err("Pi settings are not valid JSON"));
    assert_eq!(
        default_dir("/home/u/.pi/agent", "/srv/a:b\\c"),
        "/home/u/.pi/agent/sessions/--srv-a-b-c--"
    );
}
