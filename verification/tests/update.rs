use hibiscus::update::{
    accepts_offer, check, install_dir, install_message, is_check_due, is_newer, is_prebuilt,
    offer_title, refuse_tag, remembered, update_message, version, CHECK_INTERVAL, UNCHECKED,
};

#[test]
fn compares_only_strict_numeric_release_versions() {
    assert_eq!(version("v1.10.0"), Some([1, 10, 0]));
    assert!(version("v1.10.0").unwrap() > version("v1.9.12").unwrap());
    for invalid in [
        "v1.2",
        "1.2.3-beta",
        "v1.2.3/evil",
        "v01.2.3",
        "v1.2.3.4",
        "v1..3",
        "v1.2.+3",
    ] {
        assert!(version(invalid).is_none(), "{invalid}");
    }
    assert!(is_newer(&[1, 10, 0], &[1, 9, 12]));
    assert!(!is_newer(&[1, 9, 12], &[1, 9, 12]));
    assert_eq!(version("0.0.0"), Some([0, 0, 0]));
    assert_eq!(version("v18446744073709551615.0.1"), Some([u64::MAX, 0, 1]));
    assert_eq!(version("v18446744073709551616.0.1"), None);
}

#[test]
fn a_check_offers_only_a_newer_release() {
    let body = br#"{"tag_name":"v0.2.0"}"#;
    assert_eq!(check(true, body, "0.1.9"), Ok(Some("v0.2.0".to_owned())));
    assert_eq!(check(true, body, "0.2.0"), Ok(None));
    assert_eq!(check(true, body, "oops"), Err("invalid installed version"));
    assert_eq!(check(true, b"{}", "0.1.0"), Err("release has no version tag"));
    assert_eq!(
        check(true, br#"{"tag_name":"latest"}"#, "0.1.0"),
        Err("release tag must be vMAJOR.MINOR.PATCH")
    );
    assert_eq!(check(true, b"<html>", "0.1.0"), Err("release data is not JSON"));
    assert_eq!(check(false, body, "0.1.0"), Err(UNCHECKED));
}

#[test]
fn only_strict_tags_of_prebuilt_programs_are_installed() {
    assert_eq!(refuse_tag("v1.2.3"), None);
    assert_eq!(refuse_tag("1.2.3"), Some("release tag must start with v"));
    assert_eq!(refuse_tag("v1.2.3;rm"), Some("invalid release version"));
    assert_eq!(install_dir(Some("/opt"), None), Ok("/opt".to_owned()));
    assert_eq!(install_dir(None, Some("/home/u")), Ok("/home/u/.local/bin".to_owned()));
    assert_eq!(install_dir(None, None), Err("HOME is not set"));
    assert!(is_prebuilt(true, false, true));
    assert!(!is_prebuilt(true, true, true));
    assert!(!is_prebuilt(true, false, false));
    assert!(!is_prebuilt(false, false, true));
}

#[test]
fn checks_are_remembered_for_a_day() {
    assert!(is_check_due(None));
    assert!(!is_check_due(Some(CHECK_INTERVAL - 1)));
    assert!(is_check_due(Some(CHECK_INTERVAL)));
    assert_eq!(remembered(Some("v1.0.0")), "v1.0.0");
    assert_eq!(remembered(None), "current");
    assert_eq!(update_message("0.1.0", None), "Hibiscus 0.1.0 is up to date.");
    assert_eq!(
        update_message("0.1.0", Some("v0.2.0")),
        "Restart Hibiscus to use v0.2.0."
    );
    assert_eq!(offer_title("v0.2.0"), "Hibiscus v0.2.0 is available");
    assert!(!accepts_offer(Some(0)) && accepts_offer(Some(1)) && !accepts_offer(None));
    assert_eq!(
        install_message("v0.2.0", None),
        "Updated to v0.2.0. Restart Hibiscus to use it.\n"
    );
    assert_eq!(install_message("v0.2.0", Some("no")), "Update failed: no\n");
}
