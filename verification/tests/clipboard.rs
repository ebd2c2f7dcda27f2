use hibiscus::clipboard::{
    follow_up_key, gives_up, image_content, is_wsl, listing, paste_key, preferred_type, reading,
    source, Capture, CaptureStep, Read, Source, MAX_IMAGE,
};

#[test]
fn image_blocks_are_typed_and_never_contain_raw_bytes() {
    let block = image_content(b"\x89PNG\r\n\x1a\n").ok().unwrap();
    assert_eq!(block.at("type").as_text(), Some("image"));
    assert_eq!(block.at("mimeType").as_text(), Some("image/png"));
    assert_eq!(block.at("data").as_text(), Some("iVBORw0KGgo="));
    assert!(image_content(b"not an image").is_err());
    assert!(image_content(b"").is_err());
    assert!(image_content(&vec![0; MAX_IMAGE + 1]).is_err());
    assert_eq!(
        preferred_type(b"text/plain\nimage/jpeg\nimage/png\n"),
        Some("image/png")
    );
    assert_eq!(preferred_type(b"text/plain"), None);
}

#[test]
fn every_known_image_type_is_recognized() {
    for (bytes, mime) in [
        (b"\xff\xd8\xffrest".as_slice(), "image/jpeg"),
        (b"GIF87a".as_slice(), "image/gif"),
        (b"GIF89a".as_slice(), "image/gif"),
        (b"RIFF....WEBPVP8".as_slice(), "image/webp"),
    ] {
        let block = image_content(bytes).ok().unwrap();
        assert_eq!(block.at("mimeType").as_text(), Some(mime));
    }
    assert!(image_content(b"RIFF....WAVE").is_err());
    assert!(image_content(b"RIFF....WEB").is_err());
    assert_eq!(preferred_type(b" image/webp \r\nimage/gif"), Some("image/webp"));
    assert_eq!(preferred_type(b"image/gif\xff\n"), None);
}

#[test]
fn helper_output_has_a_deadline_and_a_limit() {
    let mut ok = Capture::new();
    assert_eq!(ok.on_read(Read::Data(b"ok"), 8), CaptureStep::Again);
    assert_eq!(ok.on_read(Read::Blocked, 8), CaptureStep::Wait);
    assert_eq!(ok.on_read(Read::Interrupted, 8), CaptureStep::Again);
    assert_eq!(ok.on_read(Read::End, 8), CaptureStep::Check);
    assert_eq!(ok.on_read(Read::Blocked, 8), CaptureStep::Check);
    assert_eq!(ok.on_status(Some(true)), Some(Ok(b"ok".to_vec())));
    let mut long = Capture::new();
    assert!(matches!(
        long.on_read(Read::Data(b"toolong"), 2),
        CaptureStep::Failed(_)
    ));
    assert_eq!(gives_up(false, 40, 40), Some("Clipboard read timed out"));
    assert_eq!(gives_up(true, 0, 40), Some("Clipboard read cancelled"));
    assert_eq!(gives_up(false, 39, 40), None);
    let mut failed = Capture::new();
    assert_eq!(failed.on_read(Read::Failed, 8), CaptureStep::Failed("Clipboard read failed"));
    assert_eq!(
        failed.on_status(Some(false)),
        Some(Err("Clipboard helper failed or no image is available"))
    );
    assert_eq!(Capture::new().on_status(None), None);
}

#[test]
fn each_desktop_has_its_own_helper() {
    assert_eq!(source(true, true, true, None, true), Some(Source::MacOs));
    assert_eq!(source(false, true, true, None, true), Some(Source::Windows));
    assert_eq!(source(false, false, true, None, true), Some(Source::Wayland));
    assert_eq!(
        source(false, false, false, Some("wayland"), true),
        Some(Source::Wayland)
    );
    assert_eq!(source(false, false, false, Some("x11"), true), Some(Source::X11));
    assert_eq!(source(false, false, false, None, false), None);
    assert_eq!(listing(Source::Wayland), Some(vec!["wl-paste", "--list-types"]));
    assert_eq!(
        listing(Source::X11),
        Some(vec!["xclip", "-selection", "clipboard", "-t", "TARGETS", "-o"])
    );
    assert_eq!(listing(Source::MacOs), None);
    assert_eq!(
        reading(Source::Wayland, "image/png"),
        Some(vec!["wl-paste", "--type", "image/png", "--no-newline"])
    );
    assert_eq!(
        reading(Source::X11, "image/gif"),
        Some(vec!["xclip", "-selection", "clipboard", "-t", "image/gif", "-o"])
    );
    assert!(is_wsl(true, true, false) && is_wsl(true, false, true));
    assert!(!is_wsl(false, true, true) && !is_wsl(true, false, false));
    assert_eq!((paste_key(true), follow_up_key(true)), ("Alt+V", "Ctrl+Q"));
    assert_eq!((paste_key(false), follow_up_key(false)), ("Ctrl+V", "Alt+Enter"));
}
