use hibiscus::cli::{
    builtin_arguments, bundled_node, handoff_arguments, parse_args, refuse_prompt, Start,
};

fn args(words: &[&str]) -> Vec<String> {
    words.iter().map(|word| (*word).to_owned()).collect()
}

#[test]
fn cli_modes() {
    assert!(matches!(
        parse_args(&args(&[])),
        Ok(Start::Chat { resume: false })
    ));
    assert!(matches!(
        parse_args(&args(&["--continue"])),
        Ok(Start::Chat { resume: true })
    ));
    assert!(
        matches!(parse_args(&args(&["hello", "world"])), Ok(Start::Prompt(text)) if text == "hello world")
    );
    assert!(parse_args(&args(&["--continue", "extra"])).is_err());
    assert!(matches!(
        parse_args(&args(&["--sessions"])),
        Ok(Start::Sessions)
    ));
    assert!(matches!(
        parse_args(&args(&["--version"])),
        Ok(Start::Version)
    ));
    assert!(parse_args(&args(&["-V", "extra"])).is_err());
    assert!(parse_args(&args(&["--sessions", "extra"])).is_err());
    assert!(matches!(parse_args(&args(&["-h", "extra"])), Ok(Start::Help)));
    assert!(matches!(
        parse_args(&args(&["-c"])),
        Ok(Start::Chat { resume: true })
    ));
    assert!(matches!(parse_args(&args(&["update"])), Ok(Start::Update)));
    assert!(
        matches!(parse_args(&args(&["update", "the", "docs"])), Ok(Start::Prompt(text)) if text == "update the docs")
    );
}

#[test]
fn empty_prompts_are_refused() {
    assert_eq!(refuse_prompt(" \n"), Some("prompt cannot be empty"));
    assert_eq!(refuse_prompt("hi"), None);
}

#[test]
fn pi_is_started_with_its_own_tools_and_the_gate_only() {
    assert_eq!(
        builtin_arguments("/tmp/approval.mjs"),
        [
            "--no-extensions",
            "--tools",
            "read,bash,edit,write",
            "--extension",
            "/tmp/approval.mjs"
        ]
    );
    assert_eq!(
        handoff_arguments("gate", Some("/s/a.jsonl"))[5..],
        ["--session", "/s/a.jsonl"]
    );
    assert_eq!(handoff_arguments("gate", None)[5..], ["--no-session"]);
}

#[test]
fn node_of_the_installer_is_found_below_the_data_directory() {
    assert_eq!(
        bundled_node(Some("/data"), Some("/home/u")).as_deref(),
        Some("/data/pi-node/current/bin")
    );
    assert_eq!(
        bundled_node(None, Some("/home/u")).as_deref(),
        Some("/home/u/.local/share/pi-node/current/bin")
    );
    assert_eq!(bundled_node(None, None), None);
}
