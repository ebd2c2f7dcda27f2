use hibiscus::activity::Timeline;


#[test]
fn explore_spinner_only_moves_during_an_open_exploration_phase() {
    let mut timeline = Timeline::default();
    assert!(!timeline.advance_explore());
    timeline.tool_start("r", "read", "src/first.rs");
    timeline.tool_end("r", "read", "src/first.rs", false, None);
    assert!(timeline
        .lines()
        .contains("◐ Exploring · latest: src/first.rs"));
    assert!(timeline.advance_explore());
    assert!(timeline
        .lines()
        .contains("◓ Exploring · latest: src/first.rs"));
    assert!(timeline.lines().contains("✓ Read · 1 file"));
    timeline.tool_start("e", "edit", "src/first.rs");
    assert!(!timeline.advance_explore());
    assert!(timeline
        .lines()
        .contains("✓ Explored · latest: src/first.rs"));
    timeline.tool_start("r2", "read", "src/second.rs");
    assert!(timeline.advance_explore());
    timeline.finish();
    assert!(!timeline.advance_explore());
    assert!(timeline
        .lines()
        .contains("Explore stopped · latest: src/second.rs"));
    assert!(!timeline.lines().contains("✓ Read · 2 files"));
}

#[test]
fn latest_read_updates_in_place_above_completed_counts() {
    let mut timeline = Timeline::default();
    timeline.tool_start("r1", "read", "src/first.rs");
    assert!(timeline
        .lines()
        .contains("◐ Exploring · latest: src/first.rs"));
    assert!(!timeline.lines().contains("✓ Read"));
    timeline.tool_end("r1", "read", "src/first.rs", false, None);
    assert!(timeline
        .lines()
        .contains("◐ Exploring · latest: src/first.rs\n  · ✓ Read · 1 file"));
    timeline.tool_start("r2", "read", "src/second.rs");
    assert!(timeline
        .lines()
        .contains("◐ Exploring · latest: src/second.rs\n  · ✓ Read · 1 file"));
    timeline.tool_end("r2", "read", "src/second.rs", false, None);
    assert!(timeline
        .lines()
        .contains("◐ Exploring · latest: src/second.rs\n  · ✓ Read · 2 files"));
    timeline.tool_start("r3", "read", "src/unfinished.rs");
    timeline.tool_end("unmatched", "read", "src/extra.rs", false, None);
    assert!(timeline
        .lines()
        .contains("◐ Exploring · latest: src/extra.rs"));
    timeline.finish();
    assert!(timeline
        .lines()
        .contains("Explore stopped · latest: src/extra.rs\n  · ✓ Read · 3 files"));
    assert!(!timeline.lines().contains("✓ Read · 4 files"));
    let mut moved_on = Timeline::default();
    moved_on.tool_start("r", "read", "src/main.rs");
    moved_on.tool_end("r", "read", "src/main.rs", false, None);
    moved_on.tool_start("e", "edit", "src/main.rs");
    assert!(moved_on
        .lines()
        .contains("✓ Explored · latest: src/main.rs\n  · ✓ Read · 1 file"));
}

#[test]
fn routine_work_collapses_but_edits_and_failures_remain() {
    let mut timeline = Timeline::default();
    assert!(timeline.lines().is_empty());
    for id in 1..=27 {
        let path = format!("src/file_{id}.rs");
        timeline.tool_start(&format!("r{id}"), "read", &path);
        timeline.tool_end(&format!("r{id}"), "read", &path, false, None);
    }
    for id in 1..=4 {
        timeline.tool_start(&format!("b{id}"), "bash", "private command");
        timeline.tool_end(&format!("b{id}"), "bash", "private command", false, None);
    }
    for id in 1..=3 {
        let path = format!("change_{id}.rs");
        timeline.tool_start(&format!("e{id}"), "edit", &path);
        timeline.tool_end(
            &format!("e{id}"),
            "edit",
            &path,
            false,
            Some(&format!("-old_{id}\n+new_{id}")),
        );
    }
    timeline.tool_end("missing", "read", "missing.txt", true, None);
    timeline.tool_end("failed", "bash", "private command", true, None);
    timeline.tool_end(
        "bad-edit",
        "edit",
        "failed.rs",
        true,
        Some("+must-not-show"),
    );
    let text = timeline.lines();
    assert!(text.contains(
        "✓ Explored · latest: missing.txt\n  · ✓ Read · 27 files\n  · ✓ Bash · 4 commands"
    ));
    assert_eq!(text.matches("diff ·").count(), 3);
    assert!(text.contains("✗ read · missing.txt"));
    assert!(text.contains("✗ bash · command hidden"));
    assert!(text.contains("✗ edit · failed.rs"));
    assert!(!text.contains("private command"));
    assert!(!text.contains("thinking") && !text.contains("must-not-show"));
}
