use hibiscus::json::Json;
use hibiscus::run::{RunOutcome, RunState};
use hibiscus::transport::{Inbox, Limits, Received, Shared};

fn json(text: &str) -> Json {
    let mut inbox = Inbox {
        shared: Shared::default(),
    };
    let limits = Limits {
        bytes: 64 * 1024 * 1024,
        records: 16,
    };
    assert!(inbox.shared.push(text.as_bytes().to_vec(), limits));
    match inbox.receive() {
        Received::Record(value) => value,
        _ => panic!("no record: {text}"),
    }
}

#[test]
fn retry_success_replaces_failed_attempt_but_progress_does_not() {
    let failure = json(
        r#"{"type":"message_end","message":{"role":"assistant","stopReason":"error","errorMessage":"429 rate limit"}}"#,
    );
    let mut run = RunState::new();
    run.observe(&failure);
    run.observe(&json(r#"{"type":"auto_retry_start"}"#));
    assert!(matches!(run.finish(false), RunOutcome::Failed(_)));
    let mut run = RunState::new();
    run.observe(&failure);
    run.observe(&json(
        r#"{"type":"message_end","message":{"role":"assistant","stopReason":"stop"}}"#,
    ));
    run.observe(&json(r#"{"type":"auto_retry_end","success":true}"#));
    assert!(matches!(run.finish(false), RunOutcome::Completed));
}

#[test]
fn compaction_failures_need_authoritative_recovery_and_esc_cancels() {
    let failure = json(r#"{"type":"compaction_end","errorMessage":"summary failed"}"#);
    let mut run = RunState::new();
    run.observe(&failure);
    run.observe(&json(r#"{"type":"summarization_retry_finished"}"#));
    assert!(matches!(run.finish(false), RunOutcome::Failed(_)));
    let mut run = RunState::new();
    run.observe(&failure);
    run.observe(&json(
        r#"{"type":"compaction_end","result":{},"willRetry":true}"#,
    ));
    assert!(matches!(run.finish(false), RunOutcome::Completed));
    let mut run = RunState::new();
    run.observe(&failure);
    assert!(matches!(run.finish(true), RunOutcome::Cancelled));
}
