use hibiscus::markdown::{self, Role, Row, Tone};

fn text(row: &Row) -> String {
    row.cells.iter().map(|cell| cell.ch).collect()
}

#[test]
fn renders_lists_bold_code_links_and_fences_without_markers() {
    let rows = markdown::format("hibiscus › ## Overview\n- **Bold** and `code` [link](https://example.com)\n```rust\nlet x = 2;\n```", 100);
    assert_eq!(
        rows.iter().map(text).collect::<Vec<_>>(),
        [
            "hibi",
            "Overview",
            "• Bold and code link",
            "  rust",
            "  let x = 2;",
            ""
        ]
    );
    assert!(rows[1].cells.iter().all(|cell| cell.tone == Tone::Heading));
    assert_eq!(rows[2].cells[2].tone, Tone::Strong);
    assert!(rows[4]
        .cells
        .iter()
        .skip(2)
        .all(|cell| cell.tone == Tone::Code));
}

#[test]
fn wraps_without_losing_roles_and_keeps_user_text_literal() {
    let rows = markdown::format("you › **literal**\nhibiscus › **hello** world", 7);
    assert_eq!(text(&rows[0]), "**liter");
    assert_eq!(rows[0].role, Role::User);
    assert_eq!(rows.last().unwrap().role, Role::Assistant);
    assert_eq!(
        rows.iter()
            .filter(|row| row.role == Role::User)
            .map(|row| text(row).trim_start().to_owned())
            .collect::<Vec<_>>()
            .join(""),
        "**literal**"
    );
}

#[test]
fn wraps_at_words_and_indents_continuations() {
    let rows = markdown::format("hibiscus › - testing a fairly long line", 15);
    assert_eq!(
        rows.iter().map(text).collect::<Vec<_>>(),
        ["hibi", "• testing a", "  fairly long", "  line"]
    );
    assert!(rows.iter().all(|r| r.cells.len() <= 15));
}

#[test]
fn unmatched_markers_remain_visible() {
    let rows = markdown::format("hibiscus › src/my_file_name.rs and **unfinished", 80);
    assert_eq!(text(&rows[1]), "src/my_file_name.rs and **unfinished");
}

#[test]
fn unclosed_fence_does_not_leak_into_next_reply() {
    let rows = markdown::format(
        "hibiscus › ```rust\nlet x = 1\nyou › next\nhibiscus › **answer**",
        80,
    );
    assert_eq!(text(rows.last().unwrap()), "answer");
    assert_eq!(rows.last().unwrap().cells[0].tone, Tone::Strong);
}

#[test]
fn colors_activity_and_keeps_edit_diff_literal() {
    let rows = markdown::format("  · reasoning · 3s\n  · diff · updated.md\n     11 context\n    -12 **old**\n    +12 `new`\n  · ✓ done", 80);
    assert_eq!(rows[0].cells[0].tone, Tone::Activity);
    assert_eq!(rows[1].cells[0].tone, Tone::Activity);
    assert_eq!(rows[2].role, Role::Diff);
    assert_eq!(rows[2].cells[0].tone, Tone::DiffContext);
    assert_eq!(text(&rows[3]), "-12 **old**");
    assert_eq!(rows[3].cells[0].tone, Tone::DiffRemoved);
    assert_eq!(text(&rows[4]), "+12 `new`");
    assert_eq!(rows[4].cells[0].tone, Tone::DiffAdded);
    assert_eq!(rows[5].cells[0].tone, Tone::Success);
}

#[test]
fn formats_tables_and_numbered_lists() {
    let rows = markdown::format(
        "hibiscus › | Name | Value |\n| :--- | ---: |\n| pink | 2 |\n1. first\n---",
        80,
    );
    assert_eq!(
        rows.iter().map(text).collect::<Vec<_>>(),
        [
            "hibi",
            "Name  │  Value",
            "pink  │  2",
            "1. first",
            "────────"
        ]
    );
    assert_eq!(rows[1].cells[0].tone, Tone::Strong);
}
