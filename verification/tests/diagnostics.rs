use hibiscus::diagnostics::{Diagnostics, Lines, MAX_RECENT};

#[test]
fn fragmented_ansi_and_credentials_are_sanitized_before_storage() {
    let mut feed = Diagnostics::default();
    let mut parser = Lines::default();
    for byte in b"\x1b[31mWarning: no models\x1b[0m\r\n\x1b]0;PRIVATE_TITLE\x07Authorization: Bearer PRIVATE_TOKEN\nWarning: sk-private\n" {
        parser.byte(*byte, &mut feed);
    }
    let (_, text) = feed.snapshot();
    assert!(text.contains("Warning: no models"));
    assert!(text.contains("[redacted]"));
    for private in [
        "PRIVATE_TITLE",
        "PRIVATE_TOKEN",
        "sk-private",
        "\x1b",
        "31m",
    ] {
        assert!(!text.contains(private));
    }
}

#[test]
fn bursts_and_unterminated_lines_have_bounded_storage_and_deduplication() {
    let mut feed = Diagnostics::default();
    let wire = format!(
        "{}{}",
        "Warning: repeated\n".repeat(10000),
        "x".repeat(1024 * 1024)
    );
    let mut parser = Lines::default();
    for chunk in wire.as_bytes().chunks(8192) {
        parser.feed(chunk, &mut feed);
    }
    parser.finish(&mut feed);
    let (_, text) = feed.snapshot();
    assert!(text.contains("×10000"));
    assert!(text.contains("[truncated]"));
    for n in 0..20 {
        feed.record(format!("warning {n}").as_bytes(), false);
    }
    assert_eq!(feed.recent.len(), MAX_RECENT);
    assert!(feed.earlier > 0);
    assert!(feed.recent.iter().all(|(text, _)| text.len() < 4096));
}

#[test]
fn the_latest_message_comes_first_and_revisions_count() {
    let mut feed = Diagnostics::default();
    assert_eq!(feed.snapshot(), (0, String::new()));
    feed.record(b"one", false);
    feed.record(b"two", false);
    feed.record(b"one", false);
    feed.record(b"  ", false);
    assert_eq!(feed.snapshot(), (3, "Pi: one (×2) · two".to_owned()));
    for n in 0..4 {
        feed.record(format!("n{n}").as_bytes(), false);
    }
    assert_eq!(feed.revision(), 7);
    assert_eq!(
        feed.snapshot().1,
        "Pi: n3 · n2 · n1 · n0 · 2 earlier omitted"
    );
    feed.record(b"bad \xff byte", false);
    assert!(feed.snapshot().1.starts_with("Pi: bad \u{fffd} byte"));
}

#[test]
fn escape_strings_may_end_in_two_ways() {
    let mut feed = Diagnostics::default();
    let mut parser = Lines::default();
    parser.feed(b"a\x1bPhidden\x1b\\b\x1b]x\x1by\x07c\x1bcd\x01\te\n", &mut feed);
    assert_eq!(feed.recent[0].0, "abcd e");
}
