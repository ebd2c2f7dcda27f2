use hibiscus::compaction::{compact_command, Compaction};
use hibiscus::error::ErrorCategory;
use hibiscus::json::Json;
use hibiscus::keys::Navigation;
use hibiscus::models::{choice, offer, Models, Offer, Pick};
use hibiscus::screen::{Screen, SelectStep};
use hibiscus::thinking::{has_model, levels, LevelStep};
use hibiscus::transport::{Inbox, Limits, Received, Shared};
use hibiscus::wire::write_command;

fn json(text: &str) -> Json {
    let mut inbox = Inbox {
        shared: Shared::default(),
    };
    let limits = Limits {
        bytes: 64 * 1024 * 1024,
        records: 16,
    };
    assert!(inbox.shared.push(text.as_bytes().to_vec(), limits));
    match inbox.receive() {
        Received::Record(value) => value,
        _ => panic!("no record: {text}"),
    }
}

fn line(command: &Json) -> String {
    write_command(command, &Vec::new()).unwrap()
}

const STATE: &str = r#"{"model":{"provider":"demo","id":"m2"},"thinkingLevel":"low"}"#;

fn offered(state: &str, available: &str) -> Models {
    match offer(&json(state), &json(available)) {
        Offer::Choose(models) => models,
        _ => panic!("models are offered"),
    }
}

/// What is chosen with some keys, after which Enter is pressed.
fn select(models: &Models, downs: usize) -> Option<usize> {
    let mut screen = Screen::new(true, true, Some("xterm"), true, false, None, 80, 24);
    assert!(screen.begin_select(&models.title(), models.labels(), models.active(), 24));
    for _ in 0..downs {
        assert_eq!(screen.select_key(27, Navigation::Down, 24), SelectStep::Continue);
    }
    match screen.select_key(b'\r', Navigation::Other, 24) {
        SelectStep::Done(choice) => choice,
        SelectStep::Continue => panic!("Enter ends a choice"),
    }
}

const PROVIDERS: &str = r#"{"models":[{"provider":"openrouter","id":"z"},{"provider":"openai-codex","id":"gpt"},{"provider":"anthropic","id":"sonnet"},{"provider":"openrouter","id":"a"},{"provider":"anthropic","id":"haiku"}]}"#;

#[test]
fn model_picker_groups_providers_and_switches_without_restarting_pi() {
    let models = offered(
        r#"{"model":{"provider":"anthropic","id":"sonnet"},"sessionId":"test"}"#,
        PROVIDERS,
    );
    assert_eq!(models.title(), "Models · all providers");
    assert_eq!(
        models.labels(),
        [
            "anthropic/haiku",
            "anthropic/sonnet",
            "openai-codex/gpt",
            "openrouter/a",
            "openrouter/z",
        ]
    );
    // The active anthropic/sonnet is second after anthropic/haiku.
    assert_eq!(models.active(), Some(1));
    let chosen = select(&models, 1).unwrap();
    let Pick::Select(command, said) = models.pick(chosen) else {
        panic!("another model is selected");
    };
    assert_eq!(
        line(&command),
        "{\"modelId\":\"gpt\",\"provider\":\"openai-codex\",\"type\":\"set_model\"}\n"
    );
    assert_eq!(said, "Selected openai-codex/gpt.\n");
    let models = offered(
        r#"{"model":{"provider":"openai-codex","id":"gpt"},"sessionId":"test"}"#,
        PROVIDERS,
    );
    let chosen = select(&models, 0).unwrap();
    assert!(
        matches!(models.pick(chosen), Pick::Already(text) if text == "Already using openai-codex/gpt.\n")
    );
}

#[test]
fn the_title_names_a_single_provider() {
    let all: Vec<String> = (1..=8)
        .map(|n| format!("{{\"provider\":\"demo\",\"id\":\"m{n}\"}}"))
        .collect();
    let all = format!("{{\"models\":[{}]}}", all.join(","));
    let models = offered(STATE, &all);
    assert_eq!(models.title(), "Models · demo");
    assert_eq!(models.active(), Some(1));
    let chosen = select(&models, 5).unwrap();
    assert!(matches!(models.pick(chosen), Pick::Select(_, text) if text == "Selected demo/m7.\n"));
    let models = offered(r#"{"model":{"provider":"demo","id":"m7"}}"#, &all);
    let chosen = select(&models, 0).unwrap();
    assert!(matches!(models.pick(chosen), Pick::Already(text) if text == "Already using demo/m7.\n"));
}

#[test]
fn models_are_told_apart_by_provider_and_identifier() {
    let models = offered(
        STATE,
        r#"{"models":[{"provider":"other","id":"m2"},{"provider":"demo","id":"m2"},{"provider":"demo"},{"id":"lost"},{"provider":"","id":"lost"},{"provider":"demo","id":"m1"}]}"#,
    );
    assert_eq!(models.labels(), ["demo/unknown", "demo/m1", "demo/m2", "other/m2"]);
    assert_eq!(models.active(), Some(2));
    assert_eq!(
        models.menu(),
        "Models for all providers:\n  1. demo/unknown\n  2. demo/m1\n  3. demo/m2  (current)\n  4. other/m2\n"
    );
    assert!(matches!(models.pick(0), Pick::Invalid));
    assert!(matches!(models.pick(2), Pick::Already(_)));
    assert!(matches!(models.pick(3), Pick::Select(_, text) if text == "Selected other/m2.\n"));
    let alone = offered(STATE, r#"{"models":[{"provider":"other","id":"x"}]}"#);
    assert_eq!(alone.title(), "Models · other");
    assert_eq!(alone.menu(), "Models for other:\n  1. other/x\n");
    assert_eq!(alone.active(), None);
    let listed_twice = r#"{"models":[{"provider":"b","id":"x"},{"provider":"a","id":"x"},{"provider":"b","id":"x"}]}"#;
    assert_eq!(offered("{}", listed_twice).labels(), ["a/x", "b/x", "b/x"]);
}

#[test]
fn without_models_there_is_nothing_to_choose() {
    let none = json(r#"{"models":[]}"#);
    assert!(
        matches!(offer(&json(STATE), &none), Offer::Nothing(text) if text == "No available models for demo.\n")
    );
    assert!(
        matches!(offer(&json("{}"), &none), Offer::Nothing(text) if text == "No current provider; use Pi /login first.\n")
    );
    assert!(
        matches!(offer(&json(STATE), &json("{}")), Offer::Invalid(text) if text == "invalid get_available_models response")
    );
    assert_eq!(choice(Some(" 2 "), 3), Some(1));
    for answer in [Some("0"), Some("4"), Some("x"), Some(""), None] {
        assert_eq!(choice(answer, 3), None);
    }
}

#[test]
fn only_offered_thinking_levels_are_set() {
    let state = json(STATE);
    assert!(has_model(&state) && !has_model(&json(r#"{"model":null}"#)));
    let available = json(r#"{"levels":["off","low","high"]}"#);
    let offered = levels(&state, &available).unwrap();
    assert_eq!(offered.active(), Some(1));
    assert!(
        matches!(offered.named("bogus"), LevelStep::Say(text) if text == "Unknown thinking level. Available: off, low, high\n")
    );
    assert!(
        matches!(offered.named("low"), LevelStep::Say(text) if text == "Already using low thinking.\n")
    );
    let Some(LevelStep::Choose(command, said)) = offered.pick(Some(2)) else {
        panic!("another level is set");
    };
    assert_eq!(line(&command), "{\"level\":\"high\",\"type\":\"set_thinking_level\"}\n");
    assert_eq!(said, "Thinking level: high (Pi).\n");
    assert!(offered.pick(None).is_none() && offered.pick(Some(3)).is_none());
    assert!(levels(&state, &json("{}")).is_none());
    assert!(levels(&state, &json(r#"{"levels":["off",1]}"#)).is_none());
    let only_off = levels(&json(r#"{"thinkingLevel":"off"}"#), &json(r#"{"levels":["off"]}"#)).unwrap();
    assert!(
        matches!(only_off.named("high"), LevelStep::Say(text) if text == "Unknown thinking level. Available: off\n")
    );
}

#[test]
fn compaction_ends_with_pi_answer() {
    assert_eq!(line(&compact_command(None)), "{\"type\":\"compact\"}\n");
    assert_eq!(
        line(&compact_command(Some("Keep the edits"))),
        "{\"customInstructions\":\"Keep the edits\",\"type\":\"compact\"}\n"
    );
    let mut run = Compaction::new("c");
    let (end, other) = run.on_record(&json(r#"{"type":"compaction_start","reason":"manual"}"#));
    assert!(end.is_none() && other);
    let (end, other) = run.on_record(&json(
        r#"{"type":"response","id":"c","success":true,"data":{"tokensBefore":100}}"#,
    ));
    assert!(!other);
    assert_eq!(end.unwrap().ok().unwrap().at("tokensBefore").as_natural(), Some(100));
    let mut failed = Compaction::new("c");
    let (end, _) = failed.on_record(&json(
        r#"{"type":"response","id":"c","success":false,"error":"Nothing to compact"}"#,
    ));
    let error = end.unwrap().err().unwrap();
    assert!(error.message.contains("Nothing to compact"), "{}", error.message);
    let (end, _) = Compaction::new("c").on_record(&json(r#"{"type":"response","id":"c"}"#));
    assert!(end.unwrap().is_err());
}

#[test]
fn a_stopped_compaction_waits_for_the_acknowledgement() {
    let mut run = Compaction::new("c");
    assert_eq!(run.stop(100).unwrap(), "{\"id\":\"c-abort\",\"type\":\"abort\"}\n");
    assert!(run.stop(101).is_none(), "it is ordered once");
    assert!(run.overdue(10_100).is_none() && run.overdue(10_101).is_some());
    let (end, _) = run.on_record(&json(
        r#"{"type":"response","id":"c","success":false,"error":"Compaction cancelled"}"#,
    ));
    assert!(end.is_none());
    let (end, _) = run.on_record(&json(r#"{"type":"response","id":"c-abort","success":true}"#));
    let error = end.unwrap().err().unwrap();
    assert_eq!(error.category, ErrorCategory::Cancelled);
    assert_eq!(error.message, "Cancelled compact");
    assert!(run.abort_done && run.outcome.is_none(), "the end is handed out once");
    let mut refused = Compaction::new("c");
    refused.stop(0);
    let (end, _) = refused.on_record(&json(r#"{"type":"response","id":"c-abort","success":false}"#));
    assert!(end.unwrap().is_err());
    assert!(!refused.abort_done);
}
