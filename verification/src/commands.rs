//! Commands implemented by Hibiscus itself. Suggestions advertise no others:
//! what is selected is submitted to the same dispatcher as a typed name.
use crate::text::{any_white, chars_of, has_white, starts, starts_text, starts_with};
use vstd::prelude::*;

verus! {

#[derive(Clone, Copy, Debug)]
pub struct Command {
    pub name: &'static str,
    pub description: &'static str,
}

/// What a [`Command`] holds.
pub open spec fn command_view(command: Command) -> (Seq<char>, Seq<char>) {
    (command.name@, command.description@)
}

pub open spec fn commands_view(commands: Seq<Command>) -> Seq<(Seq<char>, Seq<char>)> {
    Seq::new(commands.len(), |i: int| command_view(commands[i]))
}

/// Every command, with what it does, in the order of suggestions.
pub open spec fn all_commands() -> Seq<(Seq<char>, Seq<char>)> {
    seq![
        ("/continue"@, "Resume the latest session"@),
        ("/exit"@, "Leave Hibiscus"@),
        ("/help"@, "Show commands and keys"@),
        ("/login"@, "Sign in to Codex or open Pi"@),
        ("/logout"@, "Open Pi for provider logout"@),
        ("/models"@, "Choose a model"@),
        ("/new"@, "Start a new session"@),
        ("/quit"@, "Leave Hibiscus"@),
        ("/sessions"@, "Browse saved sessions"@),
    ]
}

/// The commands whose names begin with `prefix`.
pub open spec fn beginning(
    commands: Seq<(Seq<char>, Seq<char>)>,
    prefix: Seq<char>,
) -> Seq<(Seq<char>, Seq<char>)>
    decreases commands.len(),
{
    if commands.len() == 0 {
        Seq::empty()
    } else {
        let rest = beginning(commands.drop_last(), prefix);
        if starts(commands.last().0, prefix) {
            rest.push(commands.last())
        } else {
            rest
        }
    }
}

/// The suggestions for a draft: none, unless it is the beginning of a
/// command's name.
pub open spec fn suggestions(prefix: Seq<char>) -> Seq<(Seq<char>, Seq<char>)> {
    if !starts(prefix, "/"@) || has_white(prefix) {
        Seq::empty()
    } else {
        beginning(all_commands(), prefix)
    }
}

fn every_command() -> (out: Vec<Command>)
    ensures
        commands_view(out@) == all_commands(),
{
    let mut out: Vec<Command> = Vec::new();
    out.push(Command { name: "/continue", description: "Resume the latest session" });
    out.push(Command { name: "/exit", description: "Leave Hibiscus" });
    out.push(Command { name: "/help", description: "Show commands and keys" });
    out.push(Command { name: "/login", description: "Sign in to Codex or open Pi" });
    out.push(Command { name: "/logout", description: "Open Pi for provider logout" });
    out.push(Command { name: "/models", description: "Choose a model" });
    out.push(Command { name: "/new", description: "Start a new session" });
    out.push(Command { name: "/quit", description: "Leave Hibiscus" });
    out.push(Command { name: "/sessions", description: "Browse saved sessions" });
    assert(commands_view(out@) =~= all_commands());
    out
}

pub fn matches(prefix: &str) -> (out: Vec<Command>)
    ensures
        commands_view(out@) == suggestions(prefix@),
{
    let mut out: Vec<Command> = Vec::new();
    assert(commands_view(out@) =~= Seq::empty());
    let chars = chars_of(prefix);
    if !starts_text(chars.as_slice(), "/") || any_white(chars.as_slice()) {
        return out;
    }
    let all = every_command();
    let mut i: usize = 0;
    assert(all_commands().take(0) =~= Seq::empty());
    while i < all.len()
        invariant
            i <= all@.len(),
            chars@ == prefix@,
            commands_view(all@) == all_commands(),
            commands_view(out@) == beginning(all_commands().take(i as int), prefix@),
        decreases all@.len() - i,
    {
        let command = all[i];
        let name = chars_of(command.name);
        proof {
            let part = all_commands().take(i + 1);
            assert(part.drop_last() =~= all_commands().take(i as int));
            assert(commands_view(all@)[i as int] == command_view(command));
            assert(part.last() == command_view(command));
        }
        let ghost before = out@;
        if starts_with(name.as_slice(), chars.as_slice()) {
            out.push(command);
            assert(commands_view(out@) =~= commands_view(before).push(command_view(command)));
        }
        i = i + 1;
    }
    assert(all_commands().take(i as int) =~= all_commands());
    out
}

// ---------------------------------------------------------------------------
// Laws
// ---------------------------------------------------------------------------

proof fn lemma_beginning(commands: Seq<(Seq<char>, Seq<char>)>, prefix: Seq<char>, i: int)
    requires
        0 <= i < beginning(commands, prefix).len(),
    ensures
        starts(beginning(commands, prefix)[i].0, prefix),
        commands.contains(beginning(commands, prefix)[i]),
    decreases commands.len(),
{
    let rest = beginning(commands.drop_last(), prefix);
    if i < rest.len() {
        lemma_beginning(commands.drop_last(), prefix, i);
        let j = choose|j: int| 0 <= j < commands.len() - 1 && commands.drop_last()[j] == rest[i];
        assert(commands[j] == rest[i]);
    } else {
        assert(commands[commands.len() - 1] == beginning(commands, prefix)[i]);
    }
}

/// Every suggestion is one of the commands implemented here, and its name
/// begins with what was typed.
pub proof fn law_suggestions_are_own_commands(prefix: Seq<char>, i: int)
    requires
        0 <= i < suggestions(prefix).len(),
    ensures
        all_commands().contains(suggestions(prefix)[i]),
        starts(suggestions(prefix)[i].0, prefix),
{
    lemma_beginning(all_commands(), prefix, i);
}

/// Every own command that begins with what was typed is suggested, and once;
/// they are in the order of the table.
pub proof fn law_matching_commands_are_suggested(prefix: Seq<char>, k: int)
    requires
        starts(prefix, "/"@),
        !has_white(prefix),
        0 <= k < all_commands().len(),
        starts(all_commands()[k].0, prefix),
    ensures
        suggestions(prefix).contains(all_commands()[k]),
{
    lemma_suggested(all_commands(), prefix, k);
}

proof fn lemma_suggested(commands: Seq<(Seq<char>, Seq<char>)>, prefix: Seq<char>, k: int)
    requires
        0 <= k < commands.len(),
        starts(commands[k].0, prefix),
    ensures
        beginning(commands, prefix).contains(commands[k]),
    decreases commands.len(),
{
    let rest = beginning(commands.drop_last(), prefix);
    let all = beginning(commands, prefix);
    if k < commands.len() - 1 {
        lemma_suggested(commands.drop_last(), prefix, k);
        assert(commands.drop_last()[k] == commands[k]);
        let i = choose|i: int| 0 <= i < rest.len() && rest[i] == commands[k];
        assert(all[i] == commands[k]);
    } else {
        assert(all[rest.len() as int] == commands[k]);
    }
}

/// There are no more suggestions than commands that begin so.
pub proof fn law_suggestions_are_not_repeated(prefix: Seq<char>)
    ensures
        suggestions(prefix).len() <= all_commands().len(),
        suggestions(prefix).len() <= 9,
{
    lemma_beginning_len(all_commands(), prefix);
}

proof fn lemma_beginning_len(commands: Seq<(Seq<char>, Seq<char>)>, prefix: Seq<char>)
    ensures
        beginning(commands, prefix).len() <= commands.len(),
    decreases commands.len(),
{
    if commands.len() > 0 {
        lemma_beginning_len(commands.drop_last(), prefix);
    }
}

/// Text that is no command suggests nothing.
pub proof fn law_only_commands_are_completed(prefix: Seq<char>)
    requires
        prefix.len() == 0 || prefix[0] != '/' || has_white(prefix),
    ensures
        suggestions(prefix).len() == 0,
{
    reveal_strlit("/");
    if prefix.len() > 0 && starts(prefix, "/"@) {
        assert(prefix.subrange(0, 1)[0] == '/');
    }
}

}
