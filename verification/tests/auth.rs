use hibiscus::auth::{
    self, cancel_line, is_safe_url, managed_version, on_auth_key, on_auth_record, reply_to_prompt,
    AuthKey, AuthOutcome, AuthReply, AuthStep,
};
use hibiscus::json::Json;
use hibiscus::keys::{key_action, sequence_navigation, EscapeKey, KeyAction, Navigation};
use hibiscus::logout::{
    self, on_wait_key, stopped_message, timeout_message, Logout, LogoutOutcome, LogoutStep, WaitKey,
    INVALID_ID, INVALID_TYPE, UNCONFIRMED, UNLISTED,
};
use hibiscus::terminal::{LineEditor, LineStep};
use hibiscus::transport::{Inbox, Limits, Received, Shared};

fn json(text: &str) -> Json {
    let mut inbox = Inbox {
        shared: Shared::default(),
    };
    let limits = Limits {
        bytes: 64 * 1024 * 1024,
        records: 16,
    };
    assert!(inbox.shared.push(text.as_bytes().to_vec(), limits));
    match inbox.receive() {
        Received::Record(value) => value,
        _ => panic!("no record: {text}"),
    }
}

#[test]
fn a_version_file_names_a_release_below_its_directory() {
    assert_eq!(managed_version(" 0.61.0-beta+1\n").as_deref(), Some("0.61.0-beta+1"));
    for unsafe_name in ["", " \n", ".", "..", "../other", "a/b", "a b", "é"] {
        assert!(managed_version(unsafe_name).is_none(), "{unsafe_name}");
    }
}

#[test]
fn sign_in_links_are_offered_only_where_they_are_safe() {
    assert!(is_safe_url("https://auth.openai.com/oauth"));
    assert!(!is_safe_url("http://auth.openai.com/oauth"));
    assert!(!is_safe_url("https://bad.example/\u{1b}]52;"));
    assert!(!is_safe_url(&format!("https://{}", "x".repeat(16_384))));
    let safe = json(r#"{"type":"notice","kind":"auth_url","url":"https://auth.openai.com/x"}"#);
    let AuthStep::Notice(Some(link), shown) = on_auth_record(&safe) else {
        panic!("a safe link is offered");
    };
    assert_eq!(link, "https://auth.openai.com/x");
    assert!(shown.starts_with("  · Open Codex sign-in ↗"));
    let bad = json(r#"{"type":"notice","kind":"auth_url","url":"http://x"}"#);
    let AuthStep::Notice(None, shown) = on_auth_record(&bad) else {
        panic!("no link is offered");
    };
    assert!(shown.contains("Could not display a safe Codex sign-in URL"));
    let code = json(r#"{"type":"notice","kind":"device_code","verificationUri":"https://d","userCode":"AB\u001b-C"}"#);
    let AuthStep::Notice(None, shown) = on_auth_record(&code) else {
        panic!("a code is shown");
    };
    assert_eq!(shown, "  · Visit: https://d\n  · Enter device code: AB-C\n");
}

#[test]
fn sign_in_prompts_are_asked_and_answered() {
    let select = json(
        r#"{"type":"prompt","id":7,"kind":"select","options":[{"id":"browser","label":"Browser login"},{"label":"Other"},{"id":"x"}]}"#,
    );
    let AuthStep::Select(7, labels, ids) = on_auth_record(&select) else {
        panic!("a list is offered");
    };
    assert_eq!(labels, ["Browser login", "Other", "option"]);
    assert_eq!(ids[0].as_deref(), Some("browser"));
    assert_eq!(ids[1], None);
    let ask = json(r#"{"type":"prompt","id":8,"kind":"text","message":"Paste\u0007 it"}"#);
    assert!(
        matches!(on_auth_record(&ask), AuthStep::Ask(8, line, false) if line == "  · Paste it\n")
    );
    let secret = json(r#"{"type":"prompt","id":9,"kind":"code"}"#);
    assert!(matches!(on_auth_record(&secret), AuthStep::Ask(9, _, true)));
    for invalid in [
        r#"{"type":"prompt","kind":"text"}"#,
        r#"{"type":"prompt","id":1,"kind":"select"}"#,
    ] {
        assert!(matches!(on_auth_record(&json(invalid)), AuthStep::Invalid(_)));
    }
    assert!(matches!(
        on_auth_record(&json(r#"{"type":"prompt_cancelled"}"#)),
        AuthStep::Ignore
    ));
    assert!(matches!(
        on_auth_record(&json(r#"{"type":"done","success":true}"#)),
        AuthStep::Done(AuthOutcome::Success)
    ));
    assert!(matches!(
        on_auth_record(&json(r#"{"type":"done"}"#)),
        AuthStep::Done(AuthOutcome::Failed)
    ));
    assert!(
        matches!(reply_to_prompt(7, Some("a\"b"), false), AuthReply::Send(line)
            if line == "{\"id\":7,\"type\":\"answer\",\"value\":\"a\\\"b\"}\n")
    );
    assert!(matches!(reply_to_prompt(7, None, true), AuthReply::Proceed));
    assert!(matches!(reply_to_prompt(7, None, false), AuthReply::Cancel(line) if line == cancel_line()));
    assert_eq!(cancel_line(), "{\"type\":\"cancel\"}\n");
}

#[test]
fn a_logout_removes_only_what_was_chosen_and_confirmed() {
    let list = json(
        r#"{"type":"providers","providers":[{"id":"anthropic","type":"api_key"},{"id":"openai","type":"oauth"}]}"#,
    );
    let mut logout = Logout::Listing;
    let LogoutStep::Choose(labels) = logout.on_list(Some(&list)) else {
        panic!("providers are offered");
    };
    assert_eq!(labels, ["anthropic · API key", "openai · OAuth"]);
    let LogoutStep::Confirm(title) = logout.on_choice(Some(1)) else {
        panic!("the removal is confirmed");
    };
    assert_eq!(title, "Remove openai credentials?");
    let LogoutStep::Remove(line) = logout.on_confirmation(Some(1)) else {
        panic!("the removal is ordered");
    };
    assert_eq!(line, "{\"provider\":\"openai\",\"type\":\"logout\"}\n");
    let done = json(r#"{"type":"done","removed":true,"synchronizationWarning":true}"#);
    assert!(matches!(
        logout.on_result(&done),
        LogoutStep::End(Ok(LogoutOutcome::Removed(provider, true))) if provider == "openai"
    ));
    let mut other = Logout::Listing;
    other.on_list(Some(&list));
    other.on_choice(Some(0));
    assert!(matches!(
        other.on_confirmation(Some(0)),
        LogoutStep::End(Ok(LogoutOutcome::Cancelled))
    ));
    let mut failed = Logout::Removing("openai".into());
    assert!(matches!(
        failed.on_result(&json(r#"{"type":"done","removed":false}"#)),
        LogoutStep::End(Err(UNCONFIRMED))
    ));
}

#[test]
fn a_logout_without_a_safe_list_changes_nothing() {
    for (response, expected) in [
        (r#"{"type":"failed"}"#, UNLISTED),
        (r#"{"type":"providers"}"#, UNLISTED),
        (r#"{"type":"providers","providers":[{"type":"oauth"}]}"#, INVALID_ID),
        (r#"{"type":"providers","providers":[{"id":"","type":"oauth"}]}"#, INVALID_ID),
        (r#"{"type":"providers","providers":[{"id":"a\u0007","type":"oauth"}]}"#, INVALID_ID),
        (r#"{"type":"providers","providers":[{"id":"a","type":"other"}]}"#, INVALID_TYPE),
    ] {
        let mut logout = Logout::Listing;
        assert!(
            matches!(logout.on_list(Some(&json(response))), LogoutStep::End(Err(message)) if message == expected),
            "{response}"
        );
    }
    let long = "x".repeat(201);
    let mut logout = Logout::Listing;
    let list = json(&format!(
        r#"{{"type":"providers","providers":[{{"id":"{long}","type":"oauth"}}]}}"#
    ));
    assert!(matches!(logout.on_list(Some(&list)), LogoutStep::End(Err(INVALID_ID))));
    assert!(matches!(
        Logout::Listing.on_list(Some(&json(r#"{"type":"unavailable"}"#))),
        LogoutStep::End(Ok(LogoutOutcome::Unavailable))
    ));
    assert!(matches!(
        Logout::Listing.on_list(Some(&json(r#"{"type":"providers","providers":[]}"#))),
        LogoutStep::End(Ok(LogoutOutcome::Empty))
    ));
    assert!(matches!(
        Logout::Listing.on_list(None),
        LogoutStep::End(Ok(LogoutOutcome::Cancelled))
    ));
}

#[test]
fn a_committed_removal_cannot_be_cancelled() {
    assert_eq!(on_wait_key(3, None, true), WaitKey::Cancel(None));
    assert_eq!(on_wait_key(27, Some(Navigation::Escape), true), WaitKey::Cancel(None));
    assert_eq!(
        on_wait_key(27, Some(Navigation::EscapeWith(b'/')), true),
        WaitKey::Cancel(Some(b'/'))
    );
    assert_eq!(on_wait_key(27, Some(Navigation::Up), true), WaitKey::Ignored);
    for key in [3, 4, 27, b'x'] {
        assert_eq!(on_wait_key(key, Some(Navigation::Escape), false), WaitKey::Ignored);
    }
    assert!(timeout_message(true).contains("Credentials were not changed"));
    assert!(timeout_message(false).contains("could not be confirmed"));
    assert!(stopped_message(true).contains("Credentials were not changed"));
    assert!(stopped_message(false).contains("without confirming"));
}

#[test]
fn escape_sequences_stand_for_keys() {
    let chars = |text: &str| text.chars().collect::<Vec<_>>();
    for (sequence, key) in [
        ("A", Navigation::Up),
        ("B", Navigation::Down),
        ("C", Navigation::Right),
        ("D", Navigation::Left),
        ("H", Navigation::Home),
        ("4~", Navigation::End),
        ("3~", Navigation::Delete),
        ("5~", Navigation::ScrollPage(1)),
        ("6~", Navigation::ScrollPage(-1)),
        ("13;2u", Navigation::Newline),
        ("13;3u", Navigation::FollowUp),
        ("118;5u", Navigation::PasteImage),
        ("<64;10;7M", Navigation::MouseScroll(3, 7)),
        ("<65;10;x7M", Navigation::MouseScroll(-3, 0)),
        ("<65;10;7m", Navigation::Other),
        ("200~", Navigation::Other),
    ] {
        assert_eq!(sequence_navigation(&chars(sequence)), key, "{sequence}");
    }
    let mut escape = EscapeKey::new();
    assert_eq!(escape.feed(None), Some(Navigation::Escape));
    let mut escape = EscapeKey::new();
    assert_eq!(escape.feed(Some(b'x')), Some(Navigation::EscapeWith(b'x')));
    let mut escape = EscapeKey::new();
    assert_eq!(escape.feed(Some(b'[')), None);
    for _ in 0..31 {
        assert_eq!(escape.feed(Some(b'1')), None);
    }
    assert_eq!(escape.feed(Some(b'1')), Some(Navigation::Other));
    let mut escape = EscapeKey::new();
    escape.feed(Some(b'['));
    assert_eq!(escape.feed(None), Some(Navigation::Other));
}

#[test]
fn keys_outside_the_screen_scroll_or_stop() {
    assert_eq!(key_action(27, Navigation::Escape), KeyAction::Stop);
    assert_eq!(key_action(27, Navigation::EscapeWith(b'a')), KeyAction::Stop);
    assert_eq!(
        key_action(27, Navigation::ScrollPage(1)),
        KeyAction::Scroll(Navigation::ScrollPage(1))
    );
    assert_eq!(key_action(b'a', Navigation::Other), KeyAction::Ignore);
}

#[test]
fn lines_are_edited_by_characters() {
    let mut editor = LineEditor::new();
    let mut echo = String::new();
    for byte in "aé".as_bytes() {
        if let LineStep::Echo(text) = editor.key(*byte) {
            echo.push_str(&text);
        }
    }
    assert_eq!(echo, "aé");
    assert!(matches!(editor.key(127), LineStep::Echo(text) if text == "\x08 \x08"));
    assert!(matches!(editor.key(27), LineStep::Echo(text) if text.is_empty()));
    assert!(matches!(editor.key(0xff), LineStep::Echo(text) if text.is_empty()));
    editor.key(b'b');
    assert!(matches!(editor.key(b'\r'), LineStep::Line(text) if text == "ab"));
    assert!(matches!(LineEditor::new().key(3), LineStep::Cancelled));
    assert!(matches!(LineEditor::new().key(4), LineStep::Cancelled));
    assert!(matches!(LineEditor::new().key(8), LineStep::Echo(text) if text.is_empty()));
}

#[test]
fn helpers_speak_records() {
    let record = auth::helper_record(r#"{"type":"done"}"#).ok().unwrap();
    assert!(record.says("type", "done"));
    assert_eq!(auth::helper_record("nope").err(), Some("invalid auth helper record"));
    assert!(logout::helper_record(r#"{"type":"done"}"#).unwrap().says("type", "done"));
    assert!(logout::helper_record("{").is_none());
    let long = format!("\"{}\"", "x".repeat(65_534));
    assert!(logout::helper_record(&long).is_some());
    assert!(logout::helper_record(&format!("{long} ")).is_none());
}

#[test]
fn escape_cancels_a_sign_in_and_copying_does_not() {
    assert_eq!(on_auth_key(25, Navigation::Other), AuthKey::CopyLink);
    assert_eq!(on_auth_key(27, Navigation::Escape), AuthKey::Cancel);
    assert_eq!(on_auth_key(27, Navigation::EscapeWith(b'x')), AuthKey::Cancel);
    assert_eq!(on_auth_key(27, Navigation::Up), AuthKey::Ignored);
    assert_eq!(on_auth_key(b'x', Navigation::Other), AuthKey::Ignored);
}
