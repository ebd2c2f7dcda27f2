//! Text for the human-facing terminal. Only an interactive terminal is
//! decorated; piped output remains script-friendly.
use crate::json::{Json, Tree};
use crate::text::{
    cat2, cat5, chars_of, clean_prefix, copy, first_n, is_control, lemma_without_controls,
    same, text_of, without_controls,
};
use vstd::prelude::*;

verus! {

#[derive(Clone, Copy, Debug, PartialEq, Eq, Structural)]
pub struct Ui {
    pub interactive: bool,
    pub color: bool,
}

/// At most 50 characters of a label, none of them a control character.
pub open spec fn safe_label_of(text: Seq<char>) -> Seq<char> {
    first_n(without_controls(text), 50)
}

pub fn safe_label(text: &str) -> (out: String)
    ensures
        out@ == safe_label_of(text@),
{
    clean_prefix(text, 50)
}

/// `text` in the style `code`, where there is color.
pub open spec fn styled(color: bool, code: Seq<char>, text: Seq<char>) -> Seq<char> {
    if color {
        "\x1b["@ + code + "m"@ + text + "\x1b[0m"@
    } else {
        text
    }
}

pub fn style_text(color: bool, code: &str, text: &str) -> (out: String)
    ensures
        out@ == styled(color, code@, text@),
{
    if color {
        cat5("\x1b[", code, "m", text, "\x1b[0m")
    } else {
        copy(text)
    }
}

/// Whether output is colored: on an interactive terminal that is not dumb,
/// unless color is switched off.
pub open spec fn colors(interactive: bool, no_color: bool, term: Option<Seq<char>>) -> bool {
    interactive && !no_color && (term matches Some(name) && name != "dumb"@)
}

/// A line of information.
pub open spec fn info_of(ui: Ui, message: Seq<char>) -> Seq<char> {
    if ui.interactive {
        "  "@ + styled(ui.color, "2"@, "·"@) + " "@ + message + "\n"@
    } else {
        message + "\n"@
    }
}

/// What precedes an answer.
pub open spec fn assistant_of(ui: Ui) -> Seq<char> {
    if ui.interactive {
        styled(ui.color, "1;38;2;236;74;125"@, "hibi ›"@) + " "@
    } else {
        ""@
    }
}

/// The name of a session: its title, else the start of its identifier.
pub open spec fn session_name(state: Tree) -> Seq<char> {
    if state.text_at("sessionName"@) matches Some(name) && name.len() > 0 {
        safe_label_of(state.text_at("sessionName"@)->0)
    } else if let Some(id) = state.text_at("sessionId"@) {
        safe_label_of(first_n(id, 8))
    } else {
        "new session"@
    }
}

/// The model and the name of a session.
pub open spec fn session_of(ui: Ui, state: Tree) -> Seq<char> {
    if ui.interactive {
        info_of(
            ui,
            safe_label_of(state.at("model"@).text_or("provider"@, "unconfigured"@)) + "/"@
                + safe_label_of(state.at("model"@).text_or("id"@, "no model"@)) + "  ·  "@
                + session_name(state),
        )
    } else {
        ""@
    }
}

/// The banner.
pub open spec fn header_of(ui: Ui, workspace: Option<Seq<char>>) -> Seq<char> {
    if ui.interactive {
        let name = match workspace {
            Some(name) => name,
            None => "workspace"@,
        };
        "\n  "@ + styled(ui.color, "1;38;2;236;74;125"@, "✿ hibiscus"@) + "  "@ + styled(
            ui.color,
            "2"@,
            safe_label_of(name),
        ) + "\n  "@ + styled(
            ui.color,
            "2"@,
            "Enter to send · Esc to stop · /help for commands"@,
        ) + "\n\n"@
    } else {
        ""@
    }
}

pub(crate) fn first_chars(text: &str, n: usize) -> (out: String)
    ensures
        out@ == first_n(text@, n as nat),
{
    let chars = chars_of(text);
    if chars.len() > n {
        let part = vstd::slice::slice_subrange(chars.as_slice(), 0, n);
        assert(part@ =~= chars@.take(n as int));
        text_of(part)
    } else {
        copy(text)
    }
}

impl Ui {
    /// The interface for this terminal: `no_color` and `term` are what the
    /// variables `NO_COLOR` and `TERM` say.
    pub fn new(interactive: bool, no_color: bool, term: Option<&str>) -> (r: Self)
        ensures
            r.interactive == interactive,
            r.color == colors(
                interactive,
                no_color,
                match term {
                    Some(name) => Some(name@),
                    None => None,
                },
            ),
    {
        let able = match term {
            Some(name) => !same(name, "dumb"),
            None => false,
        };
        Ui { interactive, color: interactive && !no_color && able }
    }

    pub fn style(&self, code: &str, text: &str) -> (out: String)
        ensures
            out@ == styled(self.color, code@, text@),
    {
        style_text(self.color, code, text)
    }

    /// The banner, with the name of the workspace where it has one.
    pub fn header(&self, workspace: Option<&str>) -> (out: String)
        ensures
            out@ == header_of(
                *self,
                match workspace {
                    Some(name) => Some(name@),
                    None => None,
                },
            ),
    {
        if !self.interactive {
            return copy("");
        }
        let name = match workspace {
            Some(name) => safe_label(name),
            None => safe_label("workspace"),
        };
        let mut out = cat2("\n  ", self.style("1;38;2;236;74;125", "✿ hibiscus").as_str());
        out.append("  ");
        out.append(self.style("2", name.as_str()).as_str());
        out.append("\n  ");
        out.append(
            self.style("2", "Enter to send · Esc to stop · /help for commands").as_str(),
        );
        out.append("\n\n");
        out
    }

    /// What asks for input.
    pub fn prompt(&self) -> (out: String)
        ensures
            out@ == if self.interactive {
                styled(self.color, "1;38;2;255;155;187"@, "❯"@) + " "@
            } else {
                ""@
            },
    {
        if self.interactive {
            cat2(self.style("1;38;2;255;155;187", "❯").as_str(), " ")
        } else {
            copy("")
        }
    }

    /// What precedes a user's message.
    pub fn user(&self) -> (out: String)
        ensures
            out@ == if self.interactive {
                styled(self.color, "1;38;2;255;155;187"@, "you ›"@) + " "@
            } else {
                ""@
            },
    {
        if self.interactive {
            cat2(self.style("1;38;2;255;155;187", "you ›").as_str(), " ")
        } else {
            copy("")
        }
    }

    /// What precedes an answer.
    pub fn assistant(&self) -> (out: String)
        ensures
            out@ == assistant_of(*self),
    {
        if self.interactive {
            cat2(self.style("1;38;2;236;74;125", "hibi ›").as_str(), " ")
        } else {
            copy("")
        }
    }

    /// A line of information.
    pub fn info(&self, message: &str) -> (out: String)
        ensures
            out@ == info_of(*self, message@),
    {
        if self.interactive {
            cat5("  ", self.style("2", "·").as_str(), " ", message, "\n")
        } else {
            cat2(message, "\n")
        }
    }

    /// The model and the name of the session.
    pub fn session(&self, state: &Json) -> (out: String)
        ensures
            out@ == session_of(*self, state@),
    {
        if !self.interactive {
            return copy("");
        }
        let model = safe_label(state.at("model").text_or("id", "no model"));
        let provider = safe_label(state.at("model").text_or("provider", "unconfigured"));
        let mut name = copy("new session");
        if let Some(id) = state.text_at("sessionId") {
            name = safe_label(first_chars(id, 8).as_str());
        }
        if let Some(title) = state.text_at("sessionName") {
            if !chars_of(title).is_empty() {
                name = safe_label(title);
            }
        }
        self.info(
            cat5(provider.as_str(), "/", model.as_str(), "  ·  ", name.as_str()).as_str(),
        )
    }

    /// The commands and keys.
    pub fn help(&self) -> (out: String)
        ensures
            out@ == "\n  Chat        /new  /continue  /sessions  /quit\n  Models      /models  /thinking [level]  (↑↓ / wheel, Enter, Esc)\n  Context     /compact [summary instructions]  (Pi model call)\n  Account     /login  (Codex here; others in Pi)\n              /logout  (remove stored credentials here)\n  Recovery    /restore  (review failed prompt)  /reconnect\n  Keys        Enter send  ·  Esc stop  ·  Ctrl+D exit\n\n"@,
    {
        copy(
            "\n  Chat        /new  /continue  /sessions  /quit\n  Models      /models  /thinking [level]  (↑↓ / wheel, Enter, Esc)\n  Context     /compact [summary instructions]  (Pi model call)\n  Account     /login  (Codex here; others in Pi)\n              /logout  (remove stored credentials here)\n  Recovery    /restore  (review failed prompt)  /reconnect\n  Keys        Enter send  ·  Esc stop  ·  Ctrl+D exit\n\n",
        )
    }
}

// ---------------------------------------------------------------------------
// Laws
// ---------------------------------------------------------------------------

/// A label cannot carry terminal controls and has at most 50 characters.
pub proof fn law_labels_are_safe(text: Seq<char>)
    ensures
        safe_label_of(text).len() <= 50,
        forall|i: int|
            0 <= i < safe_label_of(text).len() ==> !is_control(#[trigger] safe_label_of(text)[i]),
{
    lemma_without_controls(text);
}

/// Piped output has no decoration: no banner, no prompt, no session line, and
/// information as it stands.
pub proof fn law_piped_output_is_plain(ui: Ui, message: Seq<char>, state: Tree)
    requires
        !ui.interactive,
    ensures
        header_of(ui, None).len() == 0,
        session_of(ui, state).len() == 0,
        assistant_of(ui).len() == 0,
        info_of(ui, message) == message + "\n"@,
{
    reveal_strlit("");
}

/// A short label without controls is shown as it is.
pub proof fn law_short_labels_are_kept(text: Seq<char>)
    requires
        text.len() <= 50,
        forall|i: int| 0 <= i < text.len() ==> !is_control(#[trigger] text[i]),
    ensures
        safe_label_of(text) == text,
{
    crate::text::lemma_clean_text(text);
}

/// A style is put around a text and ended behind it; the text itself stays.
pub proof fn law_styles_keep_the_text(code: Seq<char>, text: Seq<char>)
    ensures
        styled(false, code, text) == text,
        styled(true, code, text) == "\x1b["@ + code + "m"@ + text + "\x1b[0m"@,
{
}

/// Colors are used on a terminal that has them, unless they are unwanted.
pub proof fn law_colors_can_be_turned_off(interactive: bool, no_color: bool, term: Seq<char>)
    ensures
        colors(interactive, true, Some(term)) == false,
        colors(false, no_color, Some(term)) == false,
        colors(interactive, no_color, None) == false,
        colors(interactive, no_color, Some("dumb"@)) == false,
        term != "dumb"@ ==> colors(true, false, Some(term)),
{
}

/// The line of a session names the provider, the model and the session: its
/// title where it has one, and else the beginning of its identifier.
pub proof fn law_sessions_are_named(
    ui: Ui,
    state: Tree,
    provider: Seq<char>,
    model: Seq<char>,
    name: Seq<char>,
)
    requires
        ui.interactive,
        state.at("model"@).says("provider"@, provider),
        state.at("model"@).says("id"@, model),
        provider.len() <= 50 && model.len() <= 50,
        forall|i: int| 0 <= i < provider.len() ==> !is_control(#[trigger] provider[i]),
        forall|i: int| 0 <= i < model.len() ==> !is_control(#[trigger] model[i]),
        forall|i: int| 0 <= i < name.len() ==> !is_control(#[trigger] name[i]),
    ensures
        state.says("sessionName"@, name) && 0 < name.len() <= 50 ==> session_of(ui, state)
            == info_of(ui, provider + "/"@ + model + "  ·  "@ + name),
        state.text_at("sessionName"@) is None && state.says("sessionId"@, name) && name.len() > 8
            ==> session_of(ui, state) == info_of(
            ui,
            provider + "/"@ + model + "  ·  "@ + name.take(8),
        ),
        state.text_at("sessionName"@) is None && state.text_at("sessionId"@) is None
            ==> session_of(ui, state) == info_of(
            ui,
            provider + "/"@ + model + "  ·  "@ + "new session"@,
        ),
{
    law_short_labels_are_kept(provider);
    law_short_labels_are_kept(model);
    if name.len() <= 50 {
        law_short_labels_are_kept(name);
    }
    if name.len() > 8 {
        let part = name.take(8);
        assert forall|i: int| 0 <= i < part.len() implies !is_control(#[trigger] part[i]) by {
            assert(part[i] == name[i]);
        }
        law_short_labels_are_kept(part);
        assert(first_n(name, 8) =~= part);
    }
}

}
