use hibiscus::error::{safe_message, transport, ChatError, ErrorCategory, ErrorSource, RecoveryAction};

#[test]
fn classification_is_advisory_and_billing_wins_over_throttling() {
    for (message, category) in [
        ("429 insufficient_quota", ErrorCategory::Billing),
        ("429 rate limit", ErrorCategory::RateLimit),
        ("401 unauthorized", ErrorCategory::Authentication),
        ("403 forbidden", ErrorCategory::Access),
        ("503 overloaded", ErrorCategory::Unavailable),
        ("fetch failed", ErrorCategory::Network),
        ("context length exceeded", ErrorCategory::ContextLimit),
        ("unsupported image", ErrorCategory::InvalidRequest),
        ("something new", ErrorCategory::Unknown),
    ] {
        let error = ChatError::new(ErrorSource::Assistant, message);
        assert_eq!(error.category, category);
        assert_eq!(error.recovery(), RecoveryAction::KeepChatting);
    }
    assert_eq!(transport("closed").recovery(), RecoveryAction::Reconnect);
}
#[test]
fn error_details_are_bounded_and_terminal_safe() {
    let safe = safe_message("\x1b[2J429 authorization: Bearer secret-value https://example.com/?token=private sk-private");
    assert!(!safe.contains('\x1b'));
    for secret in ["secret-value", "example.com", "sk-private"] {
        assert!(!safe.contains(secret));
    }
    assert!(safe_message(&"word ".repeat(1000)).chars().count() <= 600);
}
