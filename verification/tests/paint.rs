use hibiscus::paint::{Cursor, Painter, SYNC_END};
use std::io::{self, Write};

fn paint(
    painter: &mut Painter,
    out: &mut dyn Write,
    lines: Vec<String>,
    dimensions: (usize, usize),
    cursor: Cursor,
) -> io::Result<()> {
    if let Some(frame) = painter.frame(&lines, dimensions, cursor) {
        if let Err(error) = out.write_all(frame.as_bytes()).and_then(|()| out.flush()) {
            let release = painter.failed();
            let _ = out.write_all(release.as_bytes());
            return Err(error);
        }
        painter.painted(lines, dimensions, cursor);
    }
    Ok(())
}

fn view(reply: &str, footer: &str) -> Vec<String> {
    ["header", reply, "composer", footer, ""]
        .map(|line| format!("{line}\x1b[K"))
        .to_vec()
}
const CURSOR: Cursor = Cursor {
    row: 3,
    column: 7,
    visible: true,
};
#[test]
fn streaming_only_repaints_changed_rows_and_parks_visible_cursor() {
    let mut painter = Painter::new(true);
    let mut bytes = Vec::new();
    paint(&mut painter, &mut bytes, view("a", "Working"), (80, 5), CURSOR)
        .unwrap();
    bytes.clear();
    paint(&mut painter, &mut bytes, view("ab", "Working"), (80, 5), CURSOR)
        .unwrap();
    let frame = String::from_utf8(bytes.clone()).unwrap();
    assert_eq!(frame, "\x1b[?2026h\x1b[2;1Hab\x1b[K\x1b[3;7H\x1b[?2026l");
    assert!(!frame.contains("composer") && !frame.contains("?25"));
    bytes.clear();
    paint(&mut painter, &mut bytes, view("ab", "Working"), (80, 5), CURSOR)
        .unwrap();
    assert!(bytes.is_empty());
    paint(&mut painter, &mut bytes, view("ab", "Thinking"), (80, 5), CURSOR)
        .unwrap();
    assert!(!String::from_utf8(bytes).unwrap().contains("ab"));
}
#[test]
fn resize_invalidation_and_focus_transitions_restore_the_view() {
    let mut painter = Painter::new(false);
    let mut bytes = Vec::new();
    paint(&mut painter, &mut bytes, view("long reply", "Working"), (80, 5), CURSOR)
        .unwrap();
    bytes.clear();
    paint(&mut painter, &mut bytes, view("short", "Idle"), (40, 5), CURSOR)
        .unwrap();
    assert!(String::from_utf8_lossy(&bytes).contains("composer"));
    assert!(!String::from_utf8_lossy(&bytes).contains("2026"));
    painter.invalidate();
    bytes.clear();
    paint(&mut painter, &mut bytes,
            view("short", "Idle"),
            (40, 5),
            Cursor {
                visible: false,
                ..CURSOR
            },
        )
        .unwrap();
    assert!(String::from_utf8_lossy(&bytes).contains("?25l"));
    bytes.clear();
    paint(&mut painter, &mut bytes, view("short", "Idle"), (40, 5), CURSOR)
        .unwrap();
    assert_eq!(String::from_utf8(bytes).unwrap(), "\x1b[3;7H\x1b[?25h");
}
#[test]
fn failed_output_releases_sync_and_does_not_cache_a_partial_frame() {
    struct FailsOnce {
        failed: bool,
        bytes: Vec<u8>,
    }
    impl Write for FailsOnce {
        fn write(&mut self, b: &[u8]) -> io::Result<usize> {
            if !self.failed {
                self.failed = true;
                return Err(io::Error::other("fixture"));
            }
            self.bytes.extend_from_slice(b);
            Ok(b.len())
        }
        fn flush(&mut self) -> io::Result<()> {
            Ok(())
        }
    }
    let mut out = FailsOnce {
        failed: false,
        bytes: Vec::new(),
    };
    let mut painter = Painter::new(true);
    assert!(paint(&mut painter, &mut out, view("a", "Idle"), (80, 5), CURSOR)
        .is_err());
    assert_eq!(out.bytes, SYNC_END.as_bytes());
    assert!(painter.resized((80, 5)));
}
