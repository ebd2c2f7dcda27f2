use hibiscus::display::{
    clip, goal_line, paint_background, strip_ansi, transcript_viewport, working_status, Viewport,
    BASE_BACKGROUND,
};
use hibiscus::markdown;

fn stripped(text: &str) -> String {
    strip_ansi(&text.chars().collect::<Vec<_>>()).into_iter().collect()
}

#[test]
fn transcript_scroll_stops_at_a_full_page() {
    assert_eq!(
        transcript_viewport(120, 40, 500),
        Viewport {
            start: 0,
            end: 40,
            scroll: 80
        }
    );
    assert_eq!(
        transcript_viewport(120, 40, 30),
        Viewport {
            start: 50,
            end: 90,
            scroll: 30
        }
    );
    assert_eq!(
        transcript_viewport(40, 40, 1),
        Viewport {
            start: 0,
            end: 40,
            scroll: 0
        }
    );
    assert_eq!(
        transcript_viewport(6, 40, 500),
        Viewport {
            start: 0,
            end: 6,
            scroll: 0
        }
    );
    assert_eq!(
        transcript_viewport(120, 0, 500),
        Viewport {
            start: 0,
            end: 0,
            scroll: 0
        }
    );
}

#[test]
fn clips_long_status_and_wraps_transcript() {
    assert_eq!(clip("abcdefgh", 5), "abcd…");
    assert_eq!(markdown::format("abcdef", 3).len(), 2);
    assert_eq!(stripped("\x1b[35mhello\x1b[0m"), "hello");
}

#[test]
fn working_footer_puts_status_left_and_goal_right_only_while_active() {
    let line = working_status(76, "✿", "Thinking…", 49, "", Some((2, 4)));
    assert!(line.starts_with("✿ Thinking… · 49s · Esc stop"));
    assert!(
        line.ends_with("Goal  ██████████░░░░░░░░░░  2/4 · 50%"),
        "{line}"
    );
    assert_eq!(line.chars().count(), 76);
    let narrow = working_status(40, "✿", "Reading…", 7, "", Some((2, 4)));
    assert!(narrow.contains("Goal 2/4 · 50%"));
    assert!(narrow.chars().count() <= 40);
    assert!(!working_status(76, "✿", "Working…", 3, "", None).contains("Goal"));
}

#[test]
fn background_covers_erased_space_and_survives_style_resets_only_with_color() {
    let original = "\x1b[Hleft\x1b[1;38;2;236;74;125m✿\x1b[0m\x1b[K\r\n\x1b[K\r\n\x1b[48;2;57;30;46muser\x1b[0m\x1b[K\r\n\x1b[J";
    let painted = paint_background(original, true);
    assert!(painted.starts_with(BASE_BACKGROUND));
    assert!(painted.contains(&format!("✿\x1b[0m{BASE_BACKGROUND}\x1b[K")));
    assert!(painted.contains(&format!("user\x1b[0m{BASE_BACKGROUND}\x1b[K")));
    assert!(painted.ends_with("\x1b[J"));
    assert_eq!(paint_background(original, false), original);
}

