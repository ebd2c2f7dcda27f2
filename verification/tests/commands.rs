use hibiscus::commands;

#[test]
fn suggestions_filter_prefix_and_never_include_pi_only_commands() {
    assert_eq!(
        commands::matches("/m").iter().map(|cmd| cmd.name).collect::<Vec<_>>(),
        ["/models"]
    );
    assert_eq!(
        commands::matches("/lo")
            .iter()
            .map(|cmd| cmd.name)
            .collect::<Vec<_>>(),
        ["/login", "/logout"]
    );
    assert!(commands::matches("/model ").is_empty());
    assert!(commands::matches("hello").is_empty());
    assert!(!commands::matches("/").iter().any(|cmd| cmd.name == "/fork"));
}
