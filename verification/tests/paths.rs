use hibiscus::paths::{is_bare_name, is_managed_pi, managed_entry, package_entries, pi_dir};

#[test]
fn managed_pi_sdk_resolution_rejects_traversal() {
    assert_eq!(
        managed_entry("/home/u/.pi/agent", "0.1\n").as_deref(),
        Some("/home/u/.pi/agent/install/releases/0.1/node_modules/@earendil-works/pi-coding-agent/dist/index.js")
    );
    assert_eq!(managed_entry("/home/u/.pi/agent", "../outside"), None);
    assert_eq!(managed_entry("/home/u/.pi/agent", ".."), None);
    assert_eq!(managed_entry("/home/u/.pi/agent", " \n"), None);
}

#[test]
fn managed_pi_launcher_linked_into_local_bin_keeps_sdk_auth_available() {
    let agent = "/r/.pi/agent";
    let launcher = Some("/r/.pi/agent/bin/pi");
    assert!(is_managed_pi("/r/.local/bin/pi", agent, launcher, launcher));
    assert!(!is_managed_pi("/r/other/pi", agent, None, launcher));
    assert!(!is_managed_pi("/r/other/pi", agent, Some("/r/other/pi"), launcher));
    assert!(!is_managed_pi("/r/other/pi", agent, None, None));
    assert!(is_managed_pi("/r//.pi/./agent/bin/pi", agent, None, None));
    assert!(!is_managed_pi("/r/.pi/agent/binary/pi", agent, None, None));
}

#[test]
fn the_package_that_holds_pi_holds_its_library() {
    assert_eq!(
        package_entries("/n/pi-coding-agent/dist/x/pi-coding-agent/dist/cli.js"),
        vec![
            "/n/pi-coding-agent/dist/x/pi-coding-agent/dist/index.js",
            "/n/pi-coding-agent/dist/index.js",
        ]
    );
    assert!(package_entries("/n/pi-coding-agent/dist.old/cli.js").is_empty());
    assert!(package_entries("/dist/cli.js").is_empty());
}

#[test]
fn only_bare_names_are_looked_up() {
    assert!(is_bare_name("pi"));
    assert!(is_bare_name("pi/"));
    assert!(!is_bare_name("./pi"));
    assert!(!is_bare_name("/pi"));
    assert!(!is_bare_name(""));
}

#[test]
fn the_directory_of_pi_has_a_default() {
    assert_eq!(pi_dir(Some("/a"), Some("/h")).as_deref(), Some("/a"));
    assert_eq!(pi_dir(None, Some("/h")).as_deref(), Some("/h/.pi/agent"));
    assert_eq!(pi_dir(None, None), None);
}
