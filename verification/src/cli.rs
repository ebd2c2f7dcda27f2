//! The command line, and how Pi is started.
use crate::lines::{join, join_texts, texts};
use crate::sessions::{below, join_path};
use crate::text::{chars_of, copy, same, trim, trimmed};
use vstd::prelude::*;

verus! {

pub const USAGE: &'static str = "Usage: hibiscus [PROMPT...]\n       hibiscus --continue\n       hibiscus --sessions\n       hibiscus --version\n       hibiscus --help\n\nWithout a prompt, start a chat (or read prompts from piped stdin).\nIn chat: /new, /continue, /sessions, /models, /login, /logout, /quit.\n/login uses Pi's Codex SDK flow in the full-screen UI when available; other providers and /logout hand off to Pi. Finish there and type /quit to return.\n--continue resumes the latest session in this directory.\n--sessions lets you select a saved session in this directory.\nSet HIBISCUS_PI to override the pi executable.";

/// What the program is asked to do.
pub enum Start {
    Chat { resume: bool },
    Sessions,
    Prompt(String),
    Update,
    Help,
    Version,
}

/// What a [`Start`] holds.
pub enum StartView {
    Chat { resume: bool },
    Sessions,
    Prompt(Seq<char>),
    Update,
    Help,
    Version,
}

impl View for Start {
    type V = StartView;

    open spec fn view(&self) -> StartView {
        match self {
            Start::Chat { resume } => StartView::Chat { resume: *resume },
            Start::Sessions => StartView::Sessions,
            Start::Prompt(text) => StartView::Prompt(text@),
            Start::Update => StartView::Update,
            Start::Help => StartView::Help,
            Start::Version => StartView::Version,
        }
    }
}

/// What the arguments ask for, or why they cannot be followed.
pub open spec fn asked(args: Seq<Seq<char>>) -> Result<StartView, Seq<char>> {
    if args.len() == 0 {
        Ok(StartView::Chat { resume: false })
    } else if args[0] == "--help"@ || args[0] == "-h"@ {
        Ok(StartView::Help)
    } else if args[0] == "--version"@ || args[0] == "-V"@ {
        if args.len() > 1 {
            Err("--version takes no arguments"@)
        } else {
            Ok(StartView::Version)
        }
    } else if args[0] == "--continue"@ || args[0] == "-c"@ {
        if args.len() > 1 {
            Err("--continue takes no prompt; start chat and type your message"@)
        } else {
            Ok(StartView::Chat { resume: true })
        }
    } else if args[0] == "--sessions"@ {
        if args.len() > 1 {
            Err("--sessions takes no prompt"@)
        } else {
            Ok(StartView::Sessions)
        }
    } else if args[0] == "update"@ && args.len() == 1 {
        Ok(StartView::Update)
    } else {
        Ok(StartView::Prompt(join(args, " "@)))
    }
}

/// Read the arguments, the name of the program not among them.
pub fn parse_args(args: &Vec<String>) -> (r: Result<Start, &'static str>)
    ensures
        match r {
            Ok(start) => asked(texts(args@)) == Ok::<StartView, Seq<char>>(start@),
            Err(message) => asked(texts(args@)) == Err::<StartView, Seq<char>>(message@),
        },
{
    let n: usize = args.len();
    assert(texts(args@).len() == n);
    if n == 0 {
        return Ok(Start::Chat { resume: false });
    }
    let first = args[0].as_str();
    assert(texts(args@)[0] == first@);
    if same(first, "--help") || same(first, "-h") {
        return Ok(Start::Help);
    }
    if same(first, "--version") || same(first, "-V") {
        return if n > 1 {
            Err("--version takes no arguments")
        } else {
            Ok(Start::Version)
        };
    }
    if same(first, "--continue") || same(first, "-c") {
        return if n > 1 {
            Err("--continue takes no prompt; start chat and type your message")
        } else {
            Ok(Start::Chat { resume: true })
        };
    }
    if same(first, "--sessions") {
        return if n > 1 {
            Err("--sessions takes no prompt")
        } else {
            Ok(Start::Sessions)
        };
    }
    if same(first, "update") && n == 1 {
        return Ok(Start::Update);
    }
    Ok(Start::Prompt(join_texts(args, " ")))
}

/// Why a prompt cannot be sent, where it cannot.
pub fn refuse_prompt(prompt: &str) -> (r: Option<&'static str>)
    ensures
        match r {
            Some(message) => trim(prompt@).len() == 0 && message@ == "prompt cannot be empty"@,
            None => trim(prompt@).len() > 0,
        },
{
    let chars = chars_of(prompt);
    if trimmed(chars.as_slice()).len() == 0 {
        Some("prompt cannot be empty")
    } else {
        None
    }
}

/// The arguments that leave Pi its own tools and the approval gate.
pub open spec fn builtin_arguments_of(approval: Seq<char>) -> Seq<Seq<char>> {
    seq![
        "--no-extensions"@,
        "--tools"@,
        "read,bash,edit,write"@,
        "--extension"@,
        approval,
    ]
}

/// The arguments that leave Pi its own tools and the approval gate, whose path
/// is given. No other extension is loaded.
pub fn builtin_arguments(approval: &str) -> (out: Vec<String>)
    ensures
        texts(out@) == builtin_arguments_of(approval@),
{
    let mut out: Vec<String> = Vec::new();
    out.push(copy("--no-extensions"));
    out.push(copy("--tools"));
    out.push(copy("read,bash,edit,write"));
    out.push(copy("--extension"));
    out.push(copy(approval));
    assert(texts(out@) =~= builtin_arguments_of(approval@));
    out
}

/// The arguments for Pi's own interface: the same tools, and the session where
/// there is one.
pub fn handoff_arguments(approval: &str, session: Option<&str>) -> (out: Vec<String>)
    ensures
        texts(out@) == builtin_arguments_of(approval@) + (match session {
            Some(path) => seq!["--session"@, path@],
            None => seq!["--no-session"@],
        }),
{
    let mut out = builtin_arguments(approval);
    let ghost first = texts(out@);
    match session {
        Some(path) => {
            out.push(copy("--session"));
            out.push(copy(path));
        },
        None => {
            out.push(copy("--no-session"));
        },
    }
    assert(texts(out@) =~= first + (match session {
        Some(path) => seq!["--session"@, path@],
        None => seq!["--no-session"@],
    }));
    out
}

/// Where Node is that came with Pi.
pub fn bundled_node(data_home: Option<&str>, home: Option<&str>) -> (r: Option<String>)
    ensures
        match (data_home, home) {
            (Some(data), _) => r is Some && r->0@ == below(data@, "pi-node/current/bin"@),
            (None, Some(home)) => r is Some && r->0@ == below(
                below(home@, ".local/share"@),
                "pi-node/current/bin"@,
            ),
            (None, None) => r is None,
        },
{
    match (data_home, home) {
        (Some(data), _) => Some(join_path(data, "pi-node/current/bin")),
        (None, Some(home)) => {
            let data = join_path(home, ".local/share");
            Some(join_path(data.as_str(), "pi-node/current/bin"))
        },
        (None, None) => None,
    }
}

// ---------------------------------------------------------------------------
// Laws
// ---------------------------------------------------------------------------

/// However Pi is started, no extension but the approval gate is loaded.
pub proof fn law_only_the_gate_is_loaded(approval: Seq<char>)
    ensures
        builtin_arguments_of(approval)[0] == "--no-extensions"@,
        builtin_arguments_of(approval).last() == approval,
{
}

/// Words that are no option are one prompt.
pub proof fn law_words_are_a_prompt(args: Seq<Seq<char>>)
    requires
        args.len() > 0,
        args[0] != "--help"@ && args[0] != "-h"@ && args[0] != "--version"@ && args[0] != "-V"@,
        args[0] != "--continue"@ && args[0] != "-c"@ && args[0] != "--sessions"@,
        args != seq!["update"@],
    ensures
        asked(args) == Ok::<StartView, Seq<char>>(StartView::Prompt(join(args, " "@))),
{
    if args.len() == 1 {
        assert(args =~= seq![args[0]]);
    }
}

/// Each option asks for one thing, under both of its names; help is given
/// whatever follows, and the other options stand alone.
pub proof fn law_options_ask_for_one_thing(rest: Seq<Seq<char>>, word: Seq<char>)
    ensures
        asked(seq!["--help"@] + rest) == Ok::<StartView, Seq<char>>(StartView::Help),
        asked(seq!["-h"@] + rest) == Ok::<StartView, Seq<char>>(StartView::Help),
        asked(seq!["--version"@]) == Ok::<StartView, Seq<char>>(StartView::Version),
        asked(seq!["-V"@]) == Ok::<StartView, Seq<char>>(StartView::Version),
        asked(seq!["--continue"@]) == Ok::<StartView, Seq<char>>(
            StartView::Chat { resume: true },
        ),
        asked(seq!["-c"@]) == Ok::<StartView, Seq<char>>(StartView::Chat { resume: true }),
        asked(seq!["--sessions"@]) == Ok::<StartView, Seq<char>>(StartView::Sessions),
        asked(seq!["update"@]) == Ok::<StartView, Seq<char>>(StartView::Update),
        asked(Seq::empty()) == Ok::<StartView, Seq<char>>(StartView::Chat { resume: false }),
        asked(seq!["--version"@, word] + rest) is Err,
        asked(seq!["-V"@, word] + rest) is Err,
        asked(seq!["--continue"@, word] + rest) is Err,
        asked(seq!["-c"@, word] + rest) is Err,
        asked(seq!["--sessions"@, word] + rest) is Err,
        asked(seq!["update"@, word] + rest) is Ok,
        asked(seq!["update"@, word] + rest)->Ok_0 is Prompt,
{
    reveal_strlit("--help");
    reveal_strlit("-h");
    reveal_strlit("--version");
    reveal_strlit("-V");
    reveal_strlit("--continue");
    reveal_strlit("-c");
    reveal_strlit("--sessions");
    reveal_strlit("update");
    assert("--help"@.len() == 6 && "--help"@[0] == '-');
    assert("-h"@.len() == 2 && "-h"@[1] == 'h');
    assert("--version"@.len() == 9);
    assert("-V"@.len() == 2 && "-V"@[1] == 'V');
    assert("--continue"@.len() == 10 && "--continue"@[2] == 'c');
    assert("-c"@.len() == 2 && "-c"@[1] == 'c');
    assert("--sessions"@.len() == 10 && "--sessions"@[2] == 's');
    assert("update"@.len() == 6 && "update"@[0] == 'u');
}

}
