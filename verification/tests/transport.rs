use hibiscus::error::RecoveryAction;
use hibiscus::transport::{
    write_size, Attempt, Fed, FrameReader, Inbox, Limits, Received, Setting, Shared, WriteClock,
    RECORD_FAILURE,
};

/// What a reader of the stream does with it.
fn start(stream: &[u8], limits: Limits) -> Inbox {
    let mut inbox = Inbox {
        shared: Shared::default(),
    };
    let mut reader = FrameReader::new();
    let mut rest = stream;
    loop {
        let bytes = &rest[..rest.len().min(100)];
        match reader.feed(bytes, limits.bytes) {
            Fed::End(None) => break,
            Fed::End(Some(frame)) => {
                inbox.shared.push(frame, limits);
                break;
            }
            Fed::Frame(frame, used) => {
                rest = &rest[used..];
                if !inbox.shared.push(frame, limits) {
                    break;
                }
            }
            Fed::More => rest = &rest[bytes.len()..],
            Fed::TooLarge => {
                inbox.shared.fail(RECORD_FAILURE);
                break;
            }
        }
    }
    inbox.shared.close();
    inbox
}

fn failure(inbox: &mut Inbox) -> String {
    match inbox.receive() {
        Received::Failed(error) => {
            assert_eq!(error.recovery(), RecoveryAction::Reconnect);
            error.display()
        }
        _ => panic!("no failure"),
    }
}

#[test]
fn slow_consumer_gets_exact_fifo_including_controls_then_eof() {
    let kinds = [
        "response",
        "message_start",
        "queue_update",
        "extension_ui_request",
        "auto_retry_end",
        "agent_settled",
    ];
    let wire = kinds
        .iter()
        .map(|kind| format!("{{\"type\":\"{kind}\",\"text\":\"first\u{2028}second\"}}\r\n"))
        .collect::<String>();
    let mut inbox = start(
        wire.as_bytes(),
        Limits {
            bytes: 4096,
            records: 16,
        },
    );
    assert!(!inbox.failed());
    for kind in kinds {
        let Received::Record(record) = inbox.receive() else {
            panic!("a record is missing: {kind}");
        };
        assert_eq!(record.at("type").as_text(), Some(kind));
        assert_eq!(record.at("text").as_text(), Some("first\u{2028}second"));
    }
    assert!(matches!(inbox.receive(), Received::Closed));
    assert!(inbox.closed_cleanly());
    assert_eq!(inbox.shared.state.bytes, 0);
}

#[test]
fn byte_and_count_overloads_invalidate_instead_of_silent_dropping() {
    for limits in [
        Limits {
            bytes: 4096,
            records: 2,
        },
        Limits {
            bytes: 64,
            records: 100,
        },
    ] {
        let wire = "{\"type\":\"response\",\"id\":\"private-marker\"}\n".repeat(1000);
        let mut inbox = start(wire.as_bytes(), limits);
        let error = failure(&mut inbox);
        assert!(error.contains("backlog limit"));
        assert!(!error.contains("private-marker"));
        let state = &inbox.shared.state;
        assert!(state.peak_bytes <= limits.bytes);
        assert!(state.peak_records <= limits.records);
        assert_eq!(state.bytes, 0);
        assert!(state.frames.is_empty());
    }
}

#[test]
fn allocated_capacity_is_accounted_not_only_frame_length() {
    let mut shared = Shared::default();
    let mut frame = Vec::with_capacity(128);
    frame.extend_from_slice(b"{}\n");
    assert!(!shared.push(
        frame,
        Limits {
            bytes: 64,
            records: 16
        }
    ));
    assert!(shared.state.failure.is_some());
}

#[test]
fn giant_and_unterminated_records_are_bounded_and_invalid_json_is_redacted() {
    let limits = Limits {
        bytes: 1024,
        records: 16,
    };
    let mut inbox = start(&vec![b'x'; 8192], limits);
    assert!(failure(&mut inbox).contains("record limit"));
    let mut inbox = start(b"private malformed payload\n", limits);
    let error = failure(&mut inbox);
    assert!(error.contains("Invalid Pi RPC"));
    assert!(!error.contains("private"));
    assert!(inbox.failed());
}

#[test]
fn writes_have_a_deadline_and_see_a_closed_connection() {
    let mut clock = WriteClock::new();
    clock.begin();
    assert!(!matches!(clock.attempt(false, 1000), Attempt::TimedOut | Attempt::Closed));
    clock.serviced(1000);
    assert!(!matches!(clock.attempt(false, 30_999), Attempt::TimedOut));
    assert!(matches!(clock.attempt(false, 31_000), Attempt::TimedOut));
    assert!(matches!(clock.attempt(true, 1001), Attempt::Closed));
    clock.flushed();
    assert_eq!(write_size(10), 10);
    assert_eq!(write_size(1 << 20), 16_384);
}

#[test]
fn limits_come_from_the_settings() {
    let limits = Limits::from_settings(Setting::Absent, Setting::Absent).unwrap();
    assert!(limits.bytes > 0 && limits.records > 0);
    assert_eq!(
        Limits::from_settings(Setting::Value("64"), Setting::Value("100")).unwrap().bytes,
        64 * 1024 * 1024
    );
    assert!(Limits::from_settings(Setting::Value("x"), Setting::Absent).is_err());
    assert!(Limits::from_settings(Setting::NotText, Setting::Absent).is_err());
    assert!(Limits::from_settings(Setting::Absent, Setting::Value("0")).is_err());
}

/// The records of a stream that arrives in pieces of `size` bytes, and whether
/// that was all.
fn read(stream: &[u8], size: usize, limit: usize) -> (Vec<Vec<u8>>, bool) {
    let mut reader = FrameReader::new();
    let mut frames = Vec::new();
    let mut rest = stream;
    loop {
        let bytes = &rest[..rest.len().min(size)];
        match reader.feed(bytes, limit) {
            Fed::End(last) => {
                frames.extend(last);
                return (frames, true);
            }
            Fed::Frame(frame, used) => {
                rest = &rest[used..];
                frames.push(frame);
            }
            Fed::More => rest = &rest[bytes.len()..],
            Fed::TooLarge => return (frames, false),
        }
    }
}

#[test]
fn streams_are_read_whole_in_whatever_pieces_they_arrive() {
    let stream = b"ab\n\ncdef\ngh";
    let records: [&[u8]; 4] = [b"ab\n", b"\n", b"cdef\n", b"gh"];
    for size in 1..=stream.len() {
        let (frames, complete) = read(stream, size, 5);
        assert!(complete, "{size}");
        assert_eq!(frames, records, "{size}");
        assert_eq!(frames.concat(), stream, "{size}");
        let (frames, complete) = read(stream, size, 4);
        assert!(!complete, "{size}");
        assert_eq!(frames, records[..2], "{size}");
        assert_eq!(read(b"abcdef", size, 5), (Vec::new(), false), "{size}");
        assert_eq!(read(b"", size, 0), (Vec::new(), true), "{size}");
    }
}
