//! The chat: what a line asks for, what follows from an error, and what is
//! said of it. Nothing is ever sent to Pi a second time by itself.
use crate::auth::AuthOutcome;
use crate::dialog::{affirms, says_yes};
use crate::error::{category_name_of, hint_of, recovery_of, text_view, ChatError, RecoveryAction};
use crate::input::kept_view;
use crate::json::{add_field, fields_view, object, text, Json, Tree};
use crate::keys::Navigation;
use crate::logout::{LogoutOutcome, OutcomeView};
use crate::number::{decimal, decimal_text};
use crate::queue::{image_trees, share_images, SharedImage};
use crate::rpc::{SessionStart, StartView};
use crate::text::{
    after_prefix, cat2, cat3, cat4, cat5, chars_of, contains, copy, occurs_at, same, starts, starts_text, strip_prefix,
    text_of, trim, trim_start_of, trim_text, trimmed, trimmed_start_of,
};
use crate::ui::{info_of, Ui};
use vstd::prelude::*;

verus! {

pub const NO_COMPOSER: &'static str = "Draft restoration requires the full-screen composer.";

pub const RESTORED: &'static str = "Restored failed prompt. Review it before pressing Enter; tools may already have run.";

pub const NOTHING_TO_RESTORE: &'static str = "No failed prompt to restore.";

pub const CONNECTED: &'static str = "Pi is already connected.";

pub const NO_SAVED_SESSION: &'static str = "No saved session path was confirmed; reconnecting opens a new Pi session. Existing sessions remain available via /sessions.";

pub const RECONNECTED: &'static str = "Reconnected to Pi. No prompt was resent.";

pub const NOT_SENT: &'static str = "Pi is disconnected. Use /reconnect, /restore, /help, or /quit. Nothing was sent.";

pub const MAY_RESTORE: &'static str = "Use /restore to review the failed prompt and attachments. Nothing is resent automatically.";

pub const DISCONNECTED: &'static str = "Pi disconnected. Use /reconnect; nothing is resent automatically.";

pub const NO_INLINE_LOGOUT: &'static str = "Inline /logout requires a full-screen terminal. Run pi and use /logout to manage stored credentials.";

pub const UNSYNCHRONIZED: &'static str = "Pi removed the credential but could not synchronize its helper state; reopening the chat backend.";

pub const SIGNED_IN: &'static str = "Codex sign-in completed. Reconnected Pi to this chat.";

pub const BAD_HISTORY: &'static str = "invalid get_messages response";

/// How much typing is kept while sessions are looked for, in bytes.
pub const MAX_BUFFERED: usize = 131_072;

// ---------------------------------------------------------------------------
// Lines
// ---------------------------------------------------------------------------

/// What becomes of a line.
#[derive(Clone, Copy, Debug, PartialEq, Eq, Structural)]
pub enum LineKind {
    Nothing,
    Quit,
    Run,
}

/// A line, and how the conversation shows it.
pub struct Entered {
    pub message: String,
    pub shown: Option<String>,
    pub kind: LineKind,
}

/// What becomes of a message with `images` attachments.
pub open spec fn line_kind(message: Seq<char>, images: nat) -> LineKind {
    if message.len() == 0 && images == 0 {
        LineKind::Nothing
    } else if message == "/quit"@ || message == "/exit"@ {
        LineKind::Quit
    } else {
        LineKind::Run
    }
}

/// How the conversation shows a message.
pub open spec fn shown_line(message: Seq<char>, images: nat, full: bool) -> Option<Seq<char>> {
    if full && (message.len() > 0 || images > 0) {
        Some(
            trim_start_of(
                if images == 0 {
                    message
                } else {
                    message + "\n["@ + decimal(images) + " image(s) attached]"@
                },
                '\n',
            ),
        )
    } else {
        None
    }
}

/// A line was typed or read.
pub fn entered(line: &str, images: usize, full: bool) -> (r: Entered)
    ensures
        r.message@ == trim(line@),
        text_view(r.shown) == shown_line(trim(line@), images as nat, full),
        r.kind == line_kind(trim(line@), images as nat),
{
    let message = trim_text(line);
    let empty = chars_of(message.as_str()).len() == 0;
    let shown = if full && (!empty || images > 0) {
        let text = if images == 0 {
            copy(message.as_str())
        } else {
            cat4(
                message.as_str(),
                "\n[",
                decimal_text(images as u64).as_str(),
                " image(s) attached]",
            )
        };
        let chars = chars_of(text.as_str());
        Some(text_of(trimmed_start_of(chars.as_slice(), '\n')))
    } else {
        None
    };
    let kind = if empty && images == 0 {
        LineKind::Nothing
    } else if same(message.as_str(), "/quit") || same(message.as_str(), "/exit") {
        LineKind::Quit
    } else {
        LineKind::Run
    };
    Entered { message, shown, kind }
}

/// What a message asks for.
pub enum Action {
    Help,
    Info(&'static str),
    /// Go on with a draft that could not be sent.
    Restore(String, Vec<SharedImage>),
    /// Connect again; whether to say that no session is known.
    Reconnect(bool),
    New,
    Continue,
    Models,
    Thinking(Option<String>),
    Compact(Option<String>),
    Login,
    Logout,
    Sessions,
    Prompt,
}

/// What an [`Action`] holds.
pub enum ActionView {
    Help,
    Info(Seq<char>),
    Restore(Seq<char>, Seq<Tree>),
    Reconnect(bool),
    New,
    Continue,
    Models,
    Thinking(Option<Seq<char>>),
    Compact(Option<Seq<char>>),
    Login,
    Logout,
    Sessions,
    Prompt,
}

impl View for Action {
    type V = ActionView;

    open spec fn view(&self) -> ActionView {
        match self {
            Action::Help => ActionView::Help,
            Action::Info(message) => ActionView::Info(message@),
            Action::Restore(text, images) => ActionView::Restore(text@, image_trees(images@)),
            Action::Reconnect(unsaved) => ActionView::Reconnect(*unsaved),
            Action::New => ActionView::New,
            Action::Continue => ActionView::Continue,
            Action::Models => ActionView::Models,
            Action::Thinking(level) => ActionView::Thinking(text_view(*level)),
            Action::Compact(instructions) => ActionView::Compact(text_view(*instructions)),
            Action::Login => ActionView::Login,
            Action::Logout => ActionView::Logout,
            Action::Sessions => ActionView::Sessions,
            Action::Prompt => ActionView::Prompt,
        }
    }
}

/// A message is a command, with or without something after it.
pub open spec fn is_command(message: Seq<char>, name: Seq<char>) -> bool {
    message == name || starts(message, name + " "@)
}

/// What stands after a command.
pub open spec fn argument_of(message: Seq<char>, name: Seq<char>) -> Option<Seq<char>> {
    match strip_prefix(message, name) {
        Some(rest) => if trim(rest).len() > 0 {
            Some(trim(rest))
        } else {
            None
        },
        None => None,
    }
}

fn commands(message: &str, name: &str) -> (r: bool)
    ensures
        r == is_command(message@, name@),
{
    let chars = chars_of(message);
    same(message, name) || starts_text(chars.as_slice(), cat2(name, " ").as_str())
}

fn argument(message: &str, name: &str) -> (r: Option<String>)
    ensures
        text_view(r) == argument_of(message@, name@),
{
    let chars = chars_of(message);
    match after_prefix(chars.as_slice(), name) {
        Some(rest) => {
            let body = trimmed(rest);
            if body.len() > 0 {
                Some(text_of(body))
            } else {
                None
            }
        },
        None => None,
    }
}

/// What a message asks of a connected Pi.
pub open spec fn action_of(message: Seq<char>) -> ActionView {
    if message == "/new"@ {
        ActionView::New
    } else if message == "/continue"@ {
        ActionView::Continue
    } else if message == "/models"@ {
        ActionView::Models
    } else if is_command(message, "/thinking"@) {
        ActionView::Thinking(argument_of(message, "/thinking"@))
    } else if is_command(message, "/compact"@) {
        ActionView::Compact(argument_of(message, "/compact"@))
    } else if message == "/login"@ {
        ActionView::Login
    } else if message == "/logout"@ {
        ActionView::Logout
    } else if message == "/sessions"@ {
        ActionView::Sessions
    } else {
        ActionView::Prompt
    }
}

fn action(message: &str) -> (r: Action)
    ensures
        r@ == action_of(message@),
{
    if same(message, "/new") {
        Action::New
    } else if same(message, "/continue") {
        Action::Continue
    } else if same(message, "/models") {
        Action::Models
    } else if commands(message, "/thinking") {
        Action::Thinking(argument(message, "/thinking"))
    } else if commands(message, "/compact") {
        Action::Compact(argument(message, "/compact"))
    } else if same(message, "/login") {
        Action::Login
    } else if same(message, "/logout") {
        Action::Logout
    } else if same(message, "/sessions") {
        Action::Sessions
    } else {
        Action::Prompt
    }
}

/// What a chat remembers: the last prompt that failed.
pub struct Chat {
    pub last_failed: Option<(String, Vec<SharedImage>)>,
}

/// What a [`Chat`] holds.
#[verifier::ext_equal]
pub struct ChatView {
    pub last_failed: Option<(Seq<char>, Seq<Tree>)>,
}

impl View for Chat {
    type V = ChatView;

    open spec fn view(&self) -> ChatView {
        ChatView { last_failed: kept_view(self.last_failed) }
    }
}

/// What is known of the connection and the screen.
#[derive(Clone, Copy, Debug, PartialEq, Eq, Structural)]
pub struct Standing {
    pub connected: bool,
    pub saved: bool,
    pub full: bool,
}

impl ChatView {
    /// What a message leads to.
    pub open spec fn routed(self, message: Seq<char>, images: Seq<Tree>, at: Standing) -> (
        ChatView,
        ActionView,
    ) {
        if message == "/help"@ {
            (self, ActionView::Help)
        } else if message == "/restore"@ {
            if !at.full {
                (self, ActionView::Info(NO_COMPOSER@))
            } else {
                match self.last_failed {
                    Some((text, images)) => (
                        ChatView { last_failed: None },
                        ActionView::Restore(text, images),
                    ),
                    None => (self, ActionView::Info(NOTHING_TO_RESTORE@)),
                }
            }
        } else if message == "/reconnect"@ {
            (
                self,
                if at.connected {
                    ActionView::Info(CONNECTED@)
                } else {
                    ActionView::Reconnect(!at.saved)
                },
            )
        } else if !at.connected {
            (
                if starts(message, "/"@) {
                    self
                } else {
                    ChatView { last_failed: Some((message, images)) }
                },
                ActionView::Info(NOT_SENT@),
            )
        } else {
            (self, action_of(message))
        }
    }

    /// What is remembered once a message was dealt with.
    pub open spec fn settled(
        self,
        submitted: bool,
        ok: bool,
        message: Seq<char>,
        images: Seq<Tree>,
        rejected: Option<(Seq<char>, Seq<Tree>)>,
    ) -> ChatView {
        if rejected is Some {
            ChatView { last_failed: rejected }
        } else if !submitted {
            self
        } else if ok {
            ChatView { last_failed: None }
        } else {
            ChatView { last_failed: Some((message, images)) }
        }
    }
}

impl Chat {
    pub fn new() -> (r: Self)
        ensures
            r@ == (ChatView { last_failed: None }),
    {
        Chat { last_failed: None }
    }

    /// What a message leads to.
    pub fn route(&mut self, message: &str, images: &Vec<SharedImage>, at: Standing) -> (r: Action)
        ensures
            (final(self)@, r@) == old(self)@.routed(message@, image_trees(images@), at),
    {
        if same(message, "/help") {
            return Action::Help;
        }
        if same(message, "/restore") {
            if !at.full {
                return Action::Info(NO_COMPOSER);
            }
            return match self.last_failed.take() {
                Some((text, images)) => Action::Restore(text, images),
                None => Action::Info(NOTHING_TO_RESTORE),
            };
        }
        if same(message, "/reconnect") {
            return if at.connected {
                Action::Info(CONNECTED)
            } else {
                Action::Reconnect(!at.saved)
            };
        }
        if !at.connected {
            let chars = chars_of(message);
            if !starts_text(chars.as_slice(), "/") {
                self.last_failed = Some((copy(message), share_images(images)));
            }
            return Action::Info(NOT_SENT);
        }
        action(message)
    }

    /// A new session was created.
    pub fn forget(&mut self)
        ensures
            final(self)@ == (ChatView { last_failed: None }),
    {
        self.last_failed = None;
    }

    /// A message was dealt with: whether it went to Pi as a prompt and whether
    /// that succeeded, and what Pi turned down meanwhile.
    pub fn settle(
        &mut self,
        submitted: bool,
        ok: bool,
        message: &str,
        images: Vec<SharedImage>,
        rejected: Option<(String, Vec<SharedImage>)>,
    )
        ensures
            final(self)@ == old(self)@.settled(
                submitted,
                ok,
                message@,
                image_trees(images@),
                kept_view(rejected),
            ),
    {
        if rejected.is_some() {
            self.last_failed = rejected;
        } else if submitted {
            if ok {
                self.last_failed = None;
            } else {
                self.last_failed = Some((copy(message), images));
            }
        }
    }
}

/// Whether the state of the session is asked for once a message was dealt
/// with.
pub fn wants_status(submitted: bool, failed: bool, connected: bool, interactive: bool) -> (r: bool)
    ensures
        r == ((submitted || failed) && connected && interactive),
{
    (submitted || failed) && connected && interactive
}

// ---------------------------------------------------------------------------
// Errors
// ---------------------------------------------------------------------------

/// Whether an error ends the chat: one of the terminal itself, or any where no
/// one is there to read of it.
pub fn ends_chat(interactive: bool, terminal: bool) -> (r: bool)
    ensures
        r == (!interactive || terminal),
{
    !interactive || terminal
}

/// Pi is disconnected after an error.
pub open spec fn disconnects(error: crate::error::ErrorView, connected: bool) -> bool {
    recovery_of(error.source) == RecoveryAction::Reconnect || !connected
}

/// What is said of an error.
pub open spec fn explained(error: crate::error::ErrorView, connected: bool, ui: Ui) -> Seq<char> {
    "\n"@ + info_of(ui, "Error ("@ + category_name_of(error.category) + "): "@ + error.message)
        + info_of(
        ui,
        if disconnects(error, connected) {
            DISCONNECTED@
        } else {
            hint_of(error.source, error.category)
        },
    )
}

/// What follows from an error: whether Pi is disconnected, and what is said.
pub fn explain(error: &ChatError, connected: bool, ui: &Ui) -> (r: (bool, String))
    ensures
        r.0 == disconnects(error@, connected),
        r.1@ == explained(error@, connected, *ui),
{
    let gone = error.recovery() == RecoveryAction::Reconnect || !connected;
    let about = cat4("Error (", error.category.name(), "): ", error.message.as_str());
    let first = ui.info(about.as_str());
    let second = ui.info(
        if gone {
            DISCONNECTED
        } else {
            error.hint()
        },
    );
    (gone, cat3("\n", first.as_str(), second.as_str()))
}

// ---------------------------------------------------------------------------
// Sessions
// ---------------------------------------------------------------------------

/// Whether the latest turns are shown when a chat begins.
pub fn shows_history(start: &SessionStart) -> (r: bool)
    ensures
        r == !(start@ is New),
{
    match start {
        SessionStart::New => false,
        _ => true,
    }
}

/// Whether releases are checked when a chat begins.
pub fn checks_updates(full: bool, disabled: bool, prebuilt: bool) -> (r: bool)
    ensures
        r == (full && !disabled && prebuilt),
{
    full && !disabled && prebuilt
}

/// A command without arguments.
pub open spec fn command_tree(kind: Seq<char>) -> Tree {
    Tree::Object(seq![("type"@, Tree::Text(kind))])
}

/// A command without arguments, such as `get_state`, `get_messages` or
/// `new_session`.
pub fn command(kind: &str) -> (r: Json)
    ensures
        r@ == command_tree(kind@),
{
    let mut fields: Vec<(String, Json)> = Vec::new();
    assert(fields_view(fields@) =~= Seq::empty());
    add_field(&mut fields, "type", text(kind));
    assert(fields_view(fields@) =~= command_tree(kind@)->Object_0);
    object(fields)
}

pub open spec fn command_with(kind: Seq<char>, key: Seq<char>, value: Seq<char>) -> Tree {
    Tree::Object(seq![("type"@, Tree::Text(kind)), (key, Tree::Text(value))])
}

fn with_text(kind: &str, key: &str, value: &str) -> (r: Json)
    ensures
        r@ == command_with(kind@, key@, value@),
{
    let mut fields: Vec<(String, Json)> = Vec::new();
    assert(fields_view(fields@) =~= Seq::empty());
    add_field(&mut fields, "type", text(kind));
    add_field(&mut fields, key, text(value));
    assert(fields_view(fields@) =~= command_with(kind@, key@, value@)->Object_0);
    object(fields)
}

/// The command that sends a message.
pub fn prompt_command(message: &str) -> (r: Json)
    ensures
        r@ == command_with("prompt"@, "message"@, message@),
{
    with_text("prompt", "message", message)
}

/// The command that opens a saved session.
pub fn switch_command(path: &str) -> (r: Json)
    ensures
        r@ == command_with("switch_session"@, "sessionPath"@, path@),
{
    with_text("switch_session", "sessionPath", path)
}

/// Whether the session at a path is the open one.
pub fn is_open(state: &Json, path: &str) -> (r: bool)
    ensures
        r == state@.says("sessionFile"@, path@),
{
    state.says("sessionFile", path)
}

/// Whether an extension kept a session from being opened.
pub fn is_cancelled(data: &Json) -> (r: bool)
    ensures
        r == data@.flagged("cancelled"@, true),
{
    data.flagged("cancelled", true)
}

/// The messages of an answer to `get_messages`.
pub fn history<'a>(data: &'a Json) -> (r: Result<&'a Vec<Json>, &'static str>)
    ensures
        match r {
            Ok(messages) => data@.at("messages"@).list() == Some(
                crate::screen::trees(messages@),
            ),
            Err(message) => data@.at("messages"@).list() is None && message@ == BAD_HISTORY@,
        },
{
    match data.at("messages").as_list() {
        Some(messages) => {
            assert(crate::screen::trees(messages@) =~= data@.at("messages"@).list()->0);
            Ok(messages)
        },
        None => Err(BAD_HISTORY),
    }
}

/// The path of the session that is open.
pub fn session_file<'a>(state: &'a Json) -> (r: Option<&'a str>)
    ensures
        match r {
            Some(path) => state@.text_at("sessionFile"@) == Some(path@),
            None => state@.text_at("sessionFile"@) is None,
        },
{
    state.text_at("sessionFile")
}

/// The session to open again: the one that is open, where its file is there.
pub fn session_to_resume(state: &Json, exists: bool) -> (r: SessionStart)
    ensures
        r@ == (match state@.text_at("sessionFile"@) {
            Some(path) => if exists {
                StartView::Selected(path)
            } else {
                StartView::New
            },
            None => StartView::New,
        }),
{
    match state.text_at("sessionFile") {
        Some(path) => if exists {
            SessionStart::Selected(copy(path))
        } else {
            SessionStart::New
        },
        None => SessionStart::New,
    }
}

pub open spec fn compacted_of(result: Tree) -> Seq<char> {
    match (result.at("tokensBefore"@).natural(), result.at("estimatedTokensAfter"@).natural()) {
        (Some(before), Some(after)) => "Pi compacted context: "@ + decimal(before as nat) + " → ~"@
            + decimal(after as nat) + " tokens. Original history is saved."@,
        _ => "Pi compacted context. Original history is saved."@,
    }
}

/// What is said of a compaction.
pub fn compacted(result: &Json) -> (out: String)
    ensures
        out@ == compacted_of(result@),
{
    match (
        result.at("tokensBefore").as_natural(),
        result.at("estimatedTokensAfter").as_natural(),
    ) {
        (Some(before), Some(after)) => cat5(
            "Pi compacted context: ",
            decimal_text(before).as_str(),
            " → ~",
            decimal_text(after).as_str(),
            " tokens. Original history is saved.",
        ),
        _ => copy("Pi compacted context. Original history is saved."),
    }
}

/// What is typed while sessions are looked for.
pub struct ScanKeys {
    pub buffered: Vec<u8>,
}

/// What a key means while sessions are looked for.
pub open spec fn scan_key(buffered: Seq<u8>, byte: u8, nav: Navigation) -> (Seq<u8>, bool) {
    if byte == 27 {
        if nav == Navigation::Escape {
            (buffered, true)
        } else if let Navigation::EscapeWith(next) = nav {
            (buffered.push(next), true)
        } else {
            (buffered, false)
        }
    } else if byte == 3 || byte == 4 {
        (buffered, true)
    } else if byte == 13 || byte == 10 {
        (buffered, false)
    } else if buffered.len() >= MAX_BUFFERED {
        (buffered, true)
    } else {
        (buffered.push(byte), false)
    }
}

impl ScanKeys {
    pub fn new() -> (r: Self)
        ensures
            r.buffered@ == Seq::<u8>::empty(),
    {
        ScanKeys { buffered: Vec::new() }
    }

    /// A key; whether the search is given up. `nav` is what an escape sequence
    /// stands for. Enter is dropped, so that no draft is sent by it later.
    pub fn key(&mut self, byte: u8, nav: Navigation) -> (stop: bool)
        ensures
            (final(self).buffered@, stop) == scan_key(old(self).buffered@, byte, nav),
    {
        if byte == 27 {
            if nav == Navigation::Escape {
                return true;
            }
            if let Navigation::EscapeWith(next) = nav {
                self.buffered.push(next);
                return true;
            }
            return false;
        }
        if byte == 3 || byte == 4 {
            return true;
        }
        if byte == 13 || byte == 10 {
            return false;
        }
        if self.buffered.len() >= MAX_BUFFERED {
            return true;
        }
        self.buffered.push(byte);
        false
    }
}

// ---------------------------------------------------------------------------
// Signing in and out
// ---------------------------------------------------------------------------

/// Whether signing in is left to Pi's own interface.
pub fn leaves_login_to_pi(interactive: bool, full: bool, keys: bool) -> (r: bool)
    ensures
        r == (!interactive || !full || !keys),
{
    !interactive || !full || !keys
}

/// The ways to sign in.
pub fn login_choices() -> (out: Vec<String>)
    ensures
        crate::lines::texts(out@) == seq![
            "OpenAI Codex · browser or device code"@,
            "Other provider · open Pi"@,
        ],
{
    let mut out: Vec<String> = Vec::new();
    out.push(copy("OpenAI Codex · browser or device code"));
    out.push(copy("Other provider · open Pi"));
    assert(crate::lines::texts(out@) =~= seq![
        "OpenAI Codex · browser or device code"@,
        "Other provider · open Pi"@,
    ]);
    out
}

/// What follows from a way to sign in.
#[derive(Clone, Copy, Debug, PartialEq, Eq, Structural)]
pub enum LoginStep {
    Codex,
    Handoff,
    Nothing,
}

pub fn on_login_choice(choice: Option<usize>) -> (r: LoginStep)
    ensures
        r == (match choice {
            Some(0) => LoginStep::Codex,
            Some(1) => LoginStep::Handoff,
            _ => LoginStep::Nothing,
        }),
{
    match choice {
        Some(0) => LoginStep::Codex,
        Some(1) => LoginStep::Handoff,
        _ => LoginStep::Nothing,
    }
}

/// What is said of a sign-in.
pub open spec fn login_message_of(outcome: AuthOutcome) -> Seq<char> {
    match outcome {
        AuthOutcome::Success => SIGNED_IN@,
        AuthOutcome::Cancelled => "Codex sign-in cancelled."@,
        AuthOutcome::Failed => "Codex sign-in failed. Try again or use Pi /login for details."@,
        AuthOutcome::Unavailable => "Codex SDK or Node is unavailable; Pi's TUI can handle login instead."@,
    }
}

/// What is said of a sign-in. After success Pi is connected again before it is
/// said; where the helper is not there, Pi's own interface follows.
pub fn login_message(outcome: AuthOutcome) -> (r: &'static str)
    ensures
        r@ == login_message_of(outcome),
{
    match outcome {
        AuthOutcome::Success => SIGNED_IN,
        AuthOutcome::Cancelled => "Codex sign-in cancelled.",
        AuthOutcome::Failed => "Codex sign-in failed. Try again or use Pi /login for details.",
        AuthOutcome::Unavailable => "Codex SDK or Node is unavailable; Pi's TUI can handle login instead.",
    }
}

/// What is said right after credentials were removed.
pub open spec fn removed_of(outcome: OutcomeView, ui: Ui) -> Seq<char> {
    match outcome {
        OutcomeView::Removed(provider, warning) => info_of(
            ui,
            "Removed stored credentials for "@ + provider + "."@,
        ) + (if warning {
            info_of(ui, UNSYNCHRONIZED@)
        } else {
            ""@
        }),
        _ => ""@,
    }
}

pub fn removed(outcome: &LogoutOutcome, ui: &Ui) -> (out: String)
    ensures
        out@ == removed_of(outcome@, *ui),
{
    match outcome {
        LogoutOutcome::Removed(provider, warning) => {
            let about = cat3("Removed stored credentials for ", provider.as_str(), ".");
            let first = ui.info(about.as_str());
            let second = if *warning {
                ui.info(UNSYNCHRONIZED)
            } else {
                copy("")
            };
            cat2(first.as_str(), second.as_str())
        },
        _ => copy(""),
    }
}

pub open spec fn logout_message_of(outcome: OutcomeView) -> Seq<char> {
    match outcome {
        OutcomeView::Removed(_, _) => "Logout complete. Chat is preserved. Environment variables and models.json are unchanged; provider tokens are not revoked."@,
        OutcomeView::Cancelled => "Logout cancelled."@,
        OutcomeView::Empty => "No stored credentials to remove. Environment variables and models.json may still provide access."@,
        OutcomeView::Unavailable => "Inline logout needs Node and a compatible Pi SDK. No credentials were changed. Run pi and use /logout, or update Pi."@,
    }
}

/// What is said at the end of signing out.
pub fn logout_message(outcome: &LogoutOutcome) -> (r: &'static str)
    ensures
        r@ == logout_message_of(outcome@),
{
    match outcome {
        LogoutOutcome::Removed(_, _) => "Logout complete. Chat is preserved. Environment variables and models.json are unchanged; provider tokens are not revoked.",
        LogoutOutcome::Cancelled => "Logout cancelled.",
        LogoutOutcome::Empty => "No stored credentials to remove. Environment variables and models.json may still provide access.",
        LogoutOutcome::Unavailable => "Inline logout needs Node and a compatible Pi SDK. No credentials were changed. Run pi and use /logout, or update Pi.",
    }
}

/// Why Pi's own interface cannot be opened, where it cannot.
pub fn refuse_handoff(action: &str, interactive: bool, terminal: bool) -> (r: Option<String>)
    ensures
        match r {
            Some(message) => (!interactive || !terminal) && message@ == action@
                + " requires an interactive terminal. Run `pi` to manage credentials.\n"@,
            None => interactive && terminal,
        },
{
    if !interactive || !terminal {
        Some(
            cat2(
                action,
                " requires an interactive terminal. Run `pi` to manage credentials.\n",
            ),
        )
    } else {
        None
    }
}

/// The question before Pi's own interface is opened.
pub fn handoff_question(action: &str, full: bool) -> (out: String)
    ensures
        out@ == "Hand off to Pi for "@ + action@ + (if full {
            "?"@
        } else {
            "? [y/N] "@
        }),
{
    cat3(
        "Hand off to Pi for ",
        action,
        if full {
            "?"
        } else {
            "? [y/N] "
        },
    )
}

/// Whether the question was answered with yes: by the choice in a list, or by
/// a line.
pub fn confirms_handoff(choice: Option<usize>, answer: Option<&str>) -> (r: bool)
    ensures
        r == (choice == Some(1usize) || affirms(
            match answer {
                Some(line) => Some(line@),
                None => None,
            },
        )),
{
    choice == Some(1) || says_yes(answer)
}

/// How Pi's own interface ended.
pub enum HandoffEnd<'a> {
    Success,
    /// It exited with this status.
    Exited(&'a str),
    /// It could not be opened.
    Failed(&'a str),
}

/// What is said once Pi's own interface was left.
pub fn handoff_message(end: HandoffEnd<'_>) -> (out: String)
    ensures
        out@ == (match end {
            HandoffEnd::Success => "Returned from Pi. Authentication changes may require restarting Hibiscus.\n"@,
            HandoffEnd::Exited(status) => "Pi exited with "@ + status@ + "; chat is unchanged.\n"@,
            HandoffEnd::Failed(error) => "Pi handoff failed: "@ + error@ + "\n"@,
        }),
{
    match end {
        HandoffEnd::Success => copy(
            "Returned from Pi. Authentication changes may require restarting Hibiscus.\n",
        ),
        HandoffEnd::Exited(status) => cat3("Pi exited with ", status, "; chat is unchanged.\n"),
        HandoffEnd::Failed(error) => cat3("Pi handoff failed: ", error, "\n"),
    }
}

// ---------------------------------------------------------------------------
// Laws
// ---------------------------------------------------------------------------

/// Nothing goes to a disconnected Pi: whatever is typed, the answer is given
/// here, or the user asked to connect again.
pub proof fn law_nothing_is_sent_while_disconnected(
    c: ChatView,
    message: Seq<char>,
    images: Seq<Tree>,
    at: Standing,
)
    requires
        !at.connected,
    ensures
        ({
            let action = c.routed(message, images, at).1;
            action is Help || action is Info || action is Restore || action is Reconnect
        }),
{
}

/// A message that was typed while Pi is disconnected is kept.
pub proof fn law_unsent_messages_are_kept(
    c: ChatView,
    message: Seq<char>,
    images: Seq<Tree>,
    at: Standing,
)
    requires
        !at.connected,
        !starts(message, "/"@),
    ensures
        c.routed(message, images, at).0.last_failed == Some((message, images)),
        c.routed(message, images, at).1 == ActionView::Info(NOT_SENT@),
{
    reveal_strlit("/");
    reveal_strlit("/help");
    reveal_strlit("/restore");
    reveal_strlit("/reconnect");
    assert(starts("/help"@, "/"@)) by {
        assert("/help"@.subrange(0, 1) =~= "/"@);
    }
    assert(starts("/restore"@, "/"@)) by {
        assert("/restore"@.subrange(0, 1) =~= "/"@);
    }
    assert(starts("/reconnect"@, "/"@)) by {
        assert("/reconnect"@.subrange(0, 1) =~= "/"@);
    }
}

/// A failed prompt comes back as it was, with its attachments, and only when
/// it is asked for: restoring gives a draft and sends nothing.
pub proof fn law_failed_prompts_can_be_restored(
    c: ChatView,
    message: Seq<char>,
    images: Seq<Tree>,
    none: Seq<Tree>,
    at: Standing,
)
    requires
        at.full,
    ensures
        ({
            let failed = c.settled(true, false, message, images, None);
            let (after, action) = failed.routed("/restore"@, none, at);
            &&& action == ActionView::Restore(message, images)
            &&& after.last_failed is None
        }),
{
    reveal_strlit("/restore");
    reveal_strlit("/help");
    assert("/restore"@.len() != "/help"@.len());
}

/// What succeeded is not offered again.
pub proof fn law_delivered_prompts_are_forgotten(
    c: ChatView,
    message: Seq<char>,
    images: Seq<Tree>,
)
    ensures
        c.settled(true, true, message, images, None).last_failed is None,
{
}

/// An error of the transport or the protocol always disconnects; another one
/// leaves a connected chat as it is.
pub proof fn law_only_broken_connections_disconnect(error: crate::error::ErrorView)
    ensures
        disconnects(error, true) <==> recovery_of(error.source) == RecoveryAction::Reconnect,
        disconnects(error, false),
{
}

/// Enter is never replayed: what was typed while sessions were looked for
/// sends nothing by itself.
pub proof fn law_enter_is_not_replayed(buffered: Seq<u8>, byte: u8, nav: Navigation)
    requires
        byte == 13 || byte == 10,
    ensures
        scan_key(buffered, byte, nav).0 == buffered,
{
}

/// What is no command is sent as it was typed, while Pi is connected.
pub proof fn law_other_lines_are_prompts(
    c: ChatView,
    message: Seq<char>,
    images: Seq<Tree>,
    at: Standing,
)
    requires
        at.connected,
        message.len() > 0,
        message[0] != '/',
    ensures
        c.routed(message, images, at) == (c, ActionView::Prompt),
        line_kind(message, images.len()) == LineKind::Run,
{
    lemma_slashes();
    if starts(message, "/thinking"@ + " "@) {
        assert(message.subrange(0, ("/thinking"@ + " "@).len() as int)[0] == '/');
    }
    if starts(message, "/compact"@ + " "@) {
        assert(message.subrange(0, ("/compact"@ + " "@).len() as int)[0] == '/');
    }
}

proof fn lemma_slashes()
    ensures
        "/quit"@.len() > 0 && "/quit"@[0] == '/',
        "/exit"@.len() > 0 && "/exit"@[0] == '/',
        "/help"@.len() > 0 && "/help"@[0] == '/',
        "/restore"@.len() > 0 && "/restore"@[0] == '/',
        "/reconnect"@.len() > 0 && "/reconnect"@[0] == '/',
        "/new"@.len() > 0 && "/new"@[0] == '/',
        "/continue"@.len() > 0 && "/continue"@[0] == '/',
        "/models"@.len() > 0 && "/models"@[0] == '/',
        "/thinking"@.len() > 0 && "/thinking"@[0] == '/',
        "/compact"@.len() > 0 && "/compact"@[0] == '/',
        "/login"@.len() > 0 && "/login"@[0] == '/',
        "/logout"@.len() > 0 && "/logout"@[0] == '/',
        "/sessions"@.len() > 0 && "/sessions"@[0] == '/',
{
    reveal_strlit("/quit");
    reveal_strlit("/exit");
    reveal_strlit("/help");
    reveal_strlit("/restore");
    reveal_strlit("/reconnect");
    reveal_strlit("/new");
    reveal_strlit("/continue");
    reveal_strlit("/models");
    reveal_strlit("/thinking");
    reveal_strlit("/compact");
    reveal_strlit("/login");
    reveal_strlit("/logout");
    reveal_strlit("/sessions");
}

/// A command with an argument gets it whole, without the blanks around it.
pub proof fn law_arguments_are_handed_on(name: Seq<char>, argument: Seq<char>)
    requires
        trim(argument) == argument,
        argument.len() > 0,
    ensures
        argument_of(name + seq![' '] + argument, name) == Some(argument),
        argument_of(name, name) is None,
        is_command(name + seq![' '] + argument, name),
{
    reveal_strlit(" ");
    assert(" "@ =~= seq![' ']);
    let line = name + seq![' '] + argument;
    let rest = seq![' '] + argument;
    assert(line.subrange(0, name.len() as int) =~= name);
    assert(line.skip(name.len() as int) =~= rest);
    assert(rest.drop_first() =~= argument);
    assert(trim(rest) == argument);
    assert(line.subrange(0, name.len() as int + 1) =~= name + " "@);
    assert(name.subrange(0, name.len() as int) =~= name);
    assert(name.skip(name.len() as int) =~= Seq::empty());
    assert(trim(Seq::<char>::empty()) =~= Seq::empty());
}

/// What was turned down while Pi worked can be restored, whatever became of
/// the prompt; and what was no prompt changes nothing.
pub proof fn law_only_prompts_are_remembered(
    c: ChatView,
    ok: bool,
    message: Seq<char>,
    images: Seq<Tree>,
    text: Seq<char>,
    more: Seq<Tree>,
)
    ensures
        c.settled(false, ok, message, images, None) == c,
        c.settled(true, ok, message, images, Some((text, more))).last_failed == Some((text, more)),
        c.settled(true, false, message, images, None).last_failed == Some((message, images)),
{
}

/// What went wrong is said, and what can be done.
pub proof fn law_errors_are_explained(error: crate::error::ErrorView, ui: Ui)
    requires
        !ui.interactive,
    ensures
        contains(explained(error, true, ui), error.message),
        contains(explained(error, false, ui), DISCONNECTED@),
{
    let a = explained(error, true, ui);
    let head = "\n"@ + ("Error ("@ + category_name_of(error.category) + "): "@);
    let first = "Error ("@ + category_name_of(error.category) + "): "@ + error.message;
    lemma_info_plain(ui, first);
    assert(a.subrange(head.len() as int, (head.len() + error.message.len()) as int)
        =~= error.message);
    assert(occurs_at(a, error.message, head.len() as int));
    let b = explained(error, false, ui);
    let start = ("\n"@ + info_of(ui, first)).len() as int;
    lemma_info_plain(ui, DISCONNECTED@);
    assert(b.subrange(start, start + DISCONNECTED@.len()) =~= DISCONNECTED@);
    assert(occurs_at(b, DISCONNECTED@, start));
}

proof fn lemma_info_plain(ui: Ui, text: Seq<char>)
    requires
        !ui.interactive,
    ensures
        starts(info_of(ui, text), text),
{
    assert(info_of(ui, text).subrange(0, text.len() as int) =~= text);
}

/// What is typed while sessions are looked for is kept, in order; Escape gives
/// the search up.
pub proof fn law_typing_is_kept_during_a_search(buffered: Seq<u8>, byte: u8, nav: Navigation)
    ensures
        byte != 27 && byte != 3 && byte != 4 && byte != 13 && byte != 10 && buffered.len() < 100
            ==> scan_key(buffered, byte, nav) == (buffered.push(byte), false),
        scan_key(buffered, 27, Navigation::Escape) == (buffered, true),
        starts(scan_key(buffered, byte, nav).0, buffered),
{
    assert(scan_key(buffered, byte, nav).0.subrange(0, buffered.len() as int) =~= buffered);
}

/// A line is shown as it was sent, with how many images came with it.
pub proof fn law_sent_lines_are_shown(message: Seq<char>, images: nat)
    requires
        message.len() > 0,
        message[0] != '\n',
    ensures
        shown_line(message, 0, true) == Some(message),
        images > 0 ==> shown_line(message, images, true) == Some(
            message + "\n["@ + decimal(images) + " image(s) attached]"@,
        ),
        shown_line(message, images, false) is None,
{
    let line = message + "\n["@ + decimal(images) + " image(s) attached]"@;
    assert(line[0] == message[0]);
}

/// What is said of a compaction holds what Pi counted before and after it.
pub proof fn law_compactions_are_counted(result: Tree, before: u64, after: u64)
    requires
        result.at("tokensBefore"@).natural() == Some(before),
        result.at("estimatedTokensAfter"@).natural() == Some(after),
    ensures
        compacted_of(result) == "Pi compacted context: "@ + decimal(before as nat) + " → ~"@
            + decimal(after as nat) + " tokens. Original history is saved."@,
{
}

/// The provider whose credentials were removed is named, with a warning where
/// Pi could not follow; nothing is said where none were removed.
pub proof fn law_removed_providers_are_named(provider: Seq<char>, ui: Ui)
    ensures
        removed_of(OutcomeView::Removed(provider, false), ui) == info_of(
            ui,
            "Removed stored credentials for "@ + provider + "."@,
        ) + ""@,
        removed_of(OutcomeView::Removed(provider, true), ui) == info_of(
            ui,
            "Removed stored credentials for "@ + provider + "."@,
        ) + info_of(ui, UNSYNCHRONIZED@),
        removed_of(OutcomeView::Cancelled, ui).len() == 0,
        removed_of(OutcomeView::Empty, ui).len() == 0,
        removed_of(OutcomeView::Unavailable, ui).len() == 0,
{
    reveal_strlit("");
}

/// Each command is understood by its own name and by nothing else.
pub proof fn law_commands_are_understood(message: Seq<char>)
    ensures
        action_of(message) is New <==> message == "/new"@,
        action_of(message) is Continue <==> message == "/continue"@,
        action_of(message) is Models <==> message == "/models"@,
        action_of(message) is Login <==> message == "/login"@,
        action_of(message) is Logout <==> message == "/logout"@,
        action_of(message) is Sessions <==> message == "/sessions"@,
{
    reveal_strlit("/new");
    reveal_strlit("/continue");
    reveal_strlit("/models");
    reveal_strlit("/thinking");
    reveal_strlit("/compact");
    reveal_strlit("/login");
    reveal_strlit("/logout");
    reveal_strlit("/sessions");
    reveal_strlit(" ");
    assert("/new"@.len() == 4);
    assert("/continue"@.len() == 9 && "/continue"@[1] == 'c');
    assert("/models"@.len() == 7 && "/models"@[1] == 'm');
    assert("/thinking"@.len() == 9 && "/thinking"@[1] == 't');
    assert("/compact"@.len() == 8);
    assert("/login"@.len() == 6);
    assert("/logout"@.len() == 7 && "/logout"@[1] == 'l');
    assert("/sessions"@.len() == 9 && "/sessions"@[1] == 's');
    if message == "/sessions"@ && starts(message, "/compact"@ + " "@) {
        assert(message.subrange(0, 9)[1] == message[1]);
        assert(("/compact"@ + " "@)[1] == 'c');
    }
}

}
