//! The state of the screen: a conversation, a composer below it, and what
//! covers them. How it is drawn is in [`crate::render`].
use crate::base64::{base64, encoded};
use crate::display::{user_content, user_content_of, BASE_BACKGROUND};
use crate::error::{safe_message, safe_text, text_view};
use crate::frame::goal_fits;
use crate::input::{
    ActiveStep, ActiveStepView, Input, InputView, NavStep, Prompt, PromptStep, PromptStepView,
    PromptView,
};
use crate::json::{Json, Tree};
use crate::keys::Navigation;
use crate::lines::texts;
use crate::modal::{from_rpc_of, list_key, move_list, picker_view, Modal, ModalView};
use crate::number::{decimal, decimal_text};
use crate::paint::{Painter, PainterView, SYNC_END};
use crate::pending::{Pending, PendingView};
use crate::picker::{Picker, PickerView};
use crate::queue::{image_trees, share_images, DraftSubmission, DraftView, QueueMode, SharedImage};
use crate::text::{
    any_control, cat2, cat3, chars_of, clean, clean_prefix, contains, contains_text, copy,
    first_n, has_control, lemma_clean_text, occurs_at, same, starts, starts_text, text_of,
    trim_start_of, trimmed_start_of, without_controls,
};
use crate::transcript::{Transcript, TranscriptView};
use vstd::prelude::*;
use vstd::utf8::encode_utf8;

verus! {

/// How many characters of a link are accepted, in bytes.
pub const MAX_URL: usize = 16_384;

/// How long a frame stays at least while text streams, in milliseconds.
pub const FRAME_TIME: u64 = 33;

pub const REFRESH_TIME: u64 = 1000;

pub const SPINNER_TIME: u64 = 320;

/// The notice where a message is submitted before the prompt was accepted.
pub const TOO_EARLY: &'static str = "Pi is starting; press Enter again after it accepts the prompt";

/// The notice where a message is submitted while the context is compacted.
pub const KEPT: &'static str = "Pi is compacting context; draft kept";

/// The notice while sessions are looked for.
pub const LOADING: &'static str = "Loading saved sessions… · Esc cancel";

pub const COPIED: &'static str = "  · Sent sign-in URL to terminal clipboard (if supported).\n";

/// What Pi is at. Times are in milliseconds.
pub struct Activity {
    pub phase: String,
    pub started: u64,
    pub last_refresh: u64,
    pub last_spinner: u64,
    pub flower: usize,
}

/// What an [`Activity`] holds.
#[verifier::ext_equal]
pub struct ActivityView {
    pub phase: Seq<char>,
    pub started: u64,
    pub last_refresh: u64,
    pub last_spinner: u64,
    pub flower: usize,
}

impl View for Activity {
    type V = ActivityView;

    open spec fn view(&self) -> ActivityView {
        ActivityView {
            phase: self.phase@,
            started: self.started,
            last_refresh: self.last_refresh,
            last_spinner: self.last_spinner,
            flower: self.flower,
        }
    }
}

pub open spec fn activity_view(activity: Option<Activity>) -> Option<ActivityView> {
    match activity {
        Some(activity) => Some(activity@),
        None => None,
    }
}

pub open spec fn modal_view(modal: Option<Modal>) -> Option<ModalView> {
    match modal {
        Some(modal) => Some(modal@),
        None => None,
    }
}

pub struct Screen {
    /// Whether the screen is drawn; otherwise text passes through.
    pub full: bool,
    pub suspended: bool,
    pub color: bool,
    pub painter: Painter,
    pub last_paint: Option<u64>,
    pub paint_pending: bool,
    pub transcript: Transcript,
    pub workspace: String,
    pub input: Input,
    pub disconnected: bool,
    pub pending: Pending,
    pub model: String,
    pub session: String,
    pub picker: Option<Picker>,
    pub modal: Option<Modal>,
    /// How far the draft was scrolled when a dialog opened.
    pub saved_scroll: usize,
    pub auth_url: Option<String>,
    pub activity: Option<Activity>,
    pub goal: Option<(usize, usize)>,
    /// What Pi said on its diagnostic stream.
    pub warning: String,
}

/// What a [`Screen`] holds.
#[verifier::ext_equal]
pub struct ScreenView {
    pub full: bool,
    pub suspended: bool,
    pub color: bool,
    pub painter: PainterView,
    pub last_paint: Option<u64>,
    pub paint_pending: bool,
    pub transcript: TranscriptView,
    pub workspace: Seq<char>,
    pub input: InputView,
    pub disconnected: bool,
    pub pending: PendingView,
    pub model: Seq<char>,
    pub session: Seq<char>,
    pub picker: Option<PickerView>,
    pub modal: Option<ModalView>,
    pub saved_scroll: usize,
    pub auth_url: Option<Seq<char>>,
    pub activity: Option<ActivityView>,
    pub goal: Option<(usize, usize)>,
    pub warning: Seq<char>,
}

impl View for Screen {
    type V = ScreenView;

    open spec fn view(&self) -> ScreenView {
        ScreenView {
            full: self.full,
            suspended: self.suspended,
            color: self.color,
            painter: self.painter@,
            last_paint: self.last_paint,
            paint_pending: self.paint_pending,
            transcript: self.transcript@,
            workspace: self.workspace@,
            input: self.input@,
            disconnected: self.disconnected,
            pending: self.pending@,
            model: self.model@,
            session: self.session@,
            picker: picker_view(self.picker),
            modal: modal_view(self.modal),
            saved_scroll: self.saved_scroll,
            auth_url: text_view(self.auth_url),
            activity: activity_view(self.activity),
            goal: self.goal,
            warning: self.warning@,
        }
    }
}

/// A terminal can show the screen.
pub open spec fn can_draw(
    interactive: bool,
    terminal: bool,
    term: Option<Seq<char>>,
    columns: usize,
    rows: usize,
) -> bool {
    &&& interactive && terminal
    &&& term matches Some(name) && name != "dumb"@
    &&& columns >= 40 && rows >= 14
}

/// A link that may be shown.
pub open spec fn shows_link(url: Seq<char>) -> bool {
    &&& starts(url, "https://"@)
    &&& encode_utf8(url).len() <= MAX_URL
    &&& !has_control(url)
}

/// The goal after some details.
pub open spec fn goal_after(goal: Option<(usize, usize)>, details: Tree) -> Option<(usize, usize)> {
    let d = details.at("hibiscusGoal"@);
    if d.get("error"@) is Some {
        goal
    } else {
        match (d.at("completed"@).natural(), d.at("total"@).natural()) {
            (Some(completed), Some(total)) => if total <= 50 && completed <= total {
                if total > 0 {
                    Some((completed as usize, total as usize))
                } else {
                    None
                }
            } else {
                goal
            },
            _ => goal,
        }
    }
}

/// The goal after the first `n` messages.
pub open spec fn goal_of(messages: Seq<Tree>, n: nat) -> Option<(usize, usize)>
    decreases n,
{
    if n == 0 {
        None
    } else {
        let before = goal_of(messages, (n - 1) as nat);
        let message = messages[n - 1];
        if message.says("role"@, "toolResult"@) && message.says("toolName"@, "goal"@) {
            goal_after(before, message.at("details"@))
        } else {
            before
        }
    }
}

/// The name of a model.
pub open spec fn model_of(state: Tree) -> Seq<char> {
    let provider = state.at("model"@).text_or("provider"@, ""@);
    let model = state.at("model"@).text_or("id"@, "no model"@);
    if provider.len() == 0 {
        without_controls(model)
    } else {
        without_controls(provider) + "/"@ + without_controls(model)
    }
}

/// The name of a session.
pub open spec fn session_of(state: Tree) -> Seq<char> {
    match state.text_at("sessionName"@) {
        Some(name) => if name.len() > 0 {
            without_controls(name)
        } else {
            session_id_of(state)
        },
        None => session_id_of(state),
    }
}

pub open spec fn session_id_of(state: Tree) -> Seq<char> {
    match state.text_at("sessionId"@) {
        Some(id) => without_controls(first_n(id, 8)),
        None => "new chat"@,
    }
}

/// The message of the user as the conversation shows it.
pub open spec fn shown_message(content: Tree) -> Seq<char> {
    let (text, images) = user_content_of(content);
    "\nyou › "@ + trim_start_of(text, '\n') + (if images > 0 {
        " ["@ + decimal(images) + " image(s) attached]"@
    } else {
        ""@
    }) + "\n"@
}

/// A notice that is about a submission on its way.
pub open spec fn is_passing(notice: Seq<char>) -> bool {
    contains(notice, "accepted by Pi"@) || starts(notice, "Sending"@) || starts(
        notice,
        "Queueing"@,
    )
}

pub open spec fn leave_sequence(color: bool) -> Seq<char> {
    SYNC_END@ + "\x1b[<u\x1b[?1000l\x1b[?1006l"@ + (if color {
        "\x1b[0m"@
    } else {
        ""@
    }) + "\x1b[?25h\x1b[?1049l\x1b[0 q"@
}

pub open spec fn enter_sequence(color: bool) -> Seq<char> {
    "\x1b[?1049h\x1b[2 q\x1b[>1u"@ + (if color {
        BASE_BACKGROUND@
    } else {
        ""@
    }) + "\x1b[2J\x1b[?1000h\x1b[?1006h\x1b[?25l"@
}

/// How far apart two times are.
pub open spec fn since(now: u64, then_: u64) -> int {
    if now > then_ {
        now - then_
    } else {
        0
    }
}

pub(crate) fn elapsed(now: u64, then_: u64) -> (r: u64)
    ensures
        r == since(now, then_),
{
    if now > then_ {
        now - then_
    } else {
        0
    }
}

impl ScreenView {
    pub open spec fn wf(self) -> bool {
        &&& self.transcript.wf()
        &&& self.input.wf()
        &&& self.picker matches Some(p) ==> p.wf() && p.items.len() > 0
        &&& self.modal matches Some(m) ==> m.wf()
        &&& goal_fits(self.goal)
        &&& self.activity matches Some(a) ==> a.flower < 4
    }

    /// Nothing has happened yet.
    pub open spec fn fresh(
        full: bool,
        color: bool,
        synchronized: bool,
        workspace: Seq<char>,
    ) -> ScreenView {
        ScreenView {
            full,
            suspended: true,
            color,
            painter: PainterView {
                lines: Seq::empty(),
                dimensions: None,
                cursor: None,
                synchronized,
            },
            last_paint: None,
            paint_pending: false,
            transcript: TranscriptView::fresh(),
            workspace,
            input: InputView::fresh(),
            disconnected: false,
            pending: PendingView::fresh(),
            model: "no model"@,
            session: "new chat"@,
            picker: None,
            modal: None,
            saved_scroll: 0,
            auth_url: None,
            activity: None,
            goal: None,
            warning: ""@,
        }
    }

    /// The screen is drawn.
    pub open spec fn draws(self) -> bool {
        self.full && !self.suspended
    }

    pub open spec fn working(self) -> bool {
        self.activity is Some
    }

    /// Nothing is known of what the terminal shows.
    pub open spec fn invalidated(self) -> ScreenView {
        ScreenView { painter: self.painter.unknown(), last_paint: None, ..self }
    }

    pub open spec fn written(self, bytes: Seq<u8>) -> ScreenView {
        if self.draws() {
            ScreenView { transcript: self.transcript.written(bytes), ..self }
        } else {
            self
        }
    }

    pub open spec fn with_input(self, input: InputView) -> ScreenView {
        ScreenView { input, ..self }
    }

    /// The draft is empty.
    pub open spec fn draft_cleared(self) -> InputView {
        InputView { composer: self.input.composer.cleared(), suggestions: None, ..self.input }
    }

    pub open spec fn asked(self, text: Seq<char>) -> ScreenView {
        let cleared = self.with_input(self.draft_cleared());
        if self.full {
            ScreenView { transcript: cleared.transcript.asked(text), ..cleared }
        } else {
            ScreenView {
                transcript: TranscriptView { scroll: 0, ..cleared.transcript },
                ..cleared
            }
        }
    }

    pub open spec fn session_cleared(self) -> ScreenView {
        ScreenView {
            transcript: self.transcript.cleared(),
            input: InputView {
                composer: crate::composer::ComposerView {
                    scroll: 0,
                    ..self.input.composer.cleared()
                },
                suggestions: None,
                dismissed: false,
                restored: None,
                rejected: None,
                active_utf8: Seq::empty(),
                input_notice: None,
                secret: false,
                ..self.input.without_images()
            },
            pending: PendingView { initial: None, ..self.pending.cleared() },
            picker: None,
            modal: None,
            auth_url: None,
            activity: None,
            goal: None,
            session: "new chat"@,
            ..self
        }
    }

    /// The first `n` of some bytes were typed, and nothing was sent.
    pub open spec fn typed(self, bytes: Seq<u8>, n: nat, columns: nat, rows: nat) -> ScreenView
        decreases n,
    {
        if n == 0 {
            self
        } else {
            let s = self.typed(bytes, (n - 1) as nat, columns, rows);
            let byte = bytes[n - 1];
            if crate::input::printable(byte) {
                let (input, left) = InputView { active_utf8: Seq::empty(), ..s.input }.batched(
                    byte,
                    Seq::empty(),
                    s.input.active_utf8,
                    columns,
                );
                s.with_input(InputView { active_utf8: left, ..input })
            } else if byte == 8 || byte == 127 {
                s.with_input(s.input.backspaced(s.working(), columns, rows))
            } else {
                s
            }
        }
    }

    pub open spec fn scrolled(self, nav: Navigation, rows: nat) -> ScreenView {
        let step = if rows > 11 {
            rows - 10
        } else {
            1
        };
        let offset = match nav {
            Navigation::ScrollPage(direction) => direction * step,
            Navigation::ScrollLines(lines) => lines as int,
            Navigation::MouseScroll(lines, _) => lines as int,
            _ => 0,
        };
        ScreenView { transcript: self.transcript.scrolled(offset), ..self }
    }

    /// What is left of a step once the conversation was moved.
    pub open spec fn settled(self, step: NavStep, rows: nat) -> (ScreenView, bool) {
        match step {
            NavStep::Done => (self, false),
            NavStep::ReadClipboard => (self, true),
            NavStep::Scroll(key) => (self.scrolled(key, rows), false),
        }
    }

    pub open spec fn work_started(self, now: u64) -> ScreenView {
        let s = ScreenView {
            transcript: TranscriptView { current: None, ..self.transcript },
            ..self
        };
        if self.full {
            ScreenView {
                activity: Some(
                    ActivityView {
                        phase: "Working…"@,
                        started: now,
                        last_refresh: now,
                        last_spinner: now,
                        flower: 0,
                    },
                ),
                ..s
            }
        } else {
            s
        }
    }

    pub open spec fn phase_set(self, phase: Seq<char>) -> ScreenView {
        match self.activity {
            Some(a) => ScreenView {
                activity: Some(ActivityView { phase: first_n(without_controls(phase), 90), ..a }),
                ..self
            },
            None => self,
        }
    }

    /// Time passes while Pi works; whether something changed.
    pub open spec fn ticked(self, now: u64) -> (ScreenView, bool) {
        match self.activity {
            None => (self, false),
            Some(a) => {
                let refresh = since(now, a.last_refresh) >= REFRESH_TIME;
                let spin = since(now, a.last_spinner) >= SPINNER_TIME;
                let after = ActivityView {
                    last_refresh: if refresh {
                        now
                    } else {
                        a.last_refresh
                    },
                    last_spinner: if spin {
                        now
                    } else {
                        a.last_spinner
                    },
                    flower: if spin {
                        ((a.flower + 1) % 4) as usize
                    } else {
                        a.flower
                    },
                    ..a
                };
                (
                    ScreenView {
                        activity: Some(after),
                        transcript: if spin {
                            self.transcript.turned().0
                        } else {
                            self.transcript
                        },
                        ..self
                    },
                    refresh || spin,
                )
            },
        }
    }

    /// A frame is due while text streams.
    pub open spec fn frame_due(self, now: u64) -> bool {
        match self.last_paint {
            Some(last) => since(now, last) >= FRAME_TIME,
            None => true,
        }
    }

    pub open spec fn work_stopped(self) -> ScreenView {
        let frozen = self.transcript.frozen(self.full);
        ScreenView {
            transcript: if self.full {
                frozen.trimmed()
            } else {
                frozen
            },
            pending: PendingView { initial: None, ..self.pending.cleared() },
            input: InputView {
                input_notice: match self.input.input_notice {
                    Some(notice) => if is_passing(notice) {
                        None
                    } else {
                        Some(notice)
                    },
                    None => None,
                },
                ..self.input
            },
            activity: None,
            ..self
        }
    }

    /// A submission is back in the draft, and why.
    pub open spec fn held_back(self, d: DraftView, notice: Seq<char>, columns: nat) -> ScreenView {
        self.with_input(
            InputView { input_notice: Some(notice), ..self.input.returned(d, columns) },
        )
    }

    pub open spec fn queued(self, d: DraftView) -> ScreenView {
        let kind = match d.mode {
            QueueMode::Steer => "steering"@,
            QueueMode::FollowUp => "follow-up"@,
        };
        ScreenView {
            pending: self.pending.queued(d),
            input: InputView {
                input_notice: Some(kind + " accepted by Pi · waiting for delivery"@),
                ..self.input
            },
            ..self
        }
    }

    /// Pi delivered a message of the user; whether it is shown.
    pub open spec fn delivered(self, message: Tree) -> (ScreenView, bool) {
        if !self.full {
            (self, false)
        } else {
            let content = message.at("content"@);
            let (pending, more) = self.pending.received(user_content_of(content).0);
            let s = ScreenView { pending, ..self };
            let shown = encode_utf8(shown_message(content));
            if !more {
                (s, false)
            } else if self.suspended {
                (ScreenView { transcript: s.transcript.added(shown), ..s }, true)
            } else {
                (ScreenView { transcript: s.transcript.written(shown), ..s }, true)
            }
        }
    }

    pub open spec fn rejected(self, d: DraftView, error: Seq<char>, columns: nat) -> ScreenView {
        ScreenView {
            pending: self.pending.rejected(d),
            input: InputView {
                rejected: Some((d.text, d.images)),
                input_notice: Some(
                    "Pi rejected queued message: "@ + safe_text(error)
                        + " · /restore after run"@,
                ),
                ..self.input.returned(d, columns)
            },
            ..self
        }
    }

    /// A dialog is over.
    pub open spec fn modal_closed(self) -> ScreenView {
        ScreenView {
            modal: None,
            input: InputView {
                composer: crate::composer::ComposerView {
                    scroll: self.saved_scroll as nat,
                    ..self.input.composer
                },
                ..self.input
            },
            ..self
        }
    }
}

/// What a key in a list leads to.
#[derive(Clone, Copy, Debug, PartialEq, Eq, Structural)]
pub enum SelectStep {
    Continue,
    Done(Option<usize>),
}

/// What a key in a dialog leads to.
pub enum ModalStep {
    Continue,
    /// Offer the sign-in link to the clipboard.
    CopyLink,
    Done(Option<Json>),
}

/// What a [`ModalStep`] holds.
pub enum ModalStepView {
    Continue,
    CopyLink,
    Done(Option<Tree>),
}

impl View for ModalStep {
    type V = ModalStepView;

    open spec fn view(&self) -> ModalStepView {
        match self {
            ModalStep::Continue => ModalStepView::Continue,
            ModalStep::CopyLink => ModalStepView::CopyLink,
            ModalStep::Done(answer) => ModalStepView::Done(
                match answer {
                    Some(answer) => Some(answer@),
                    None => None,
                },
            ),
        }
    }
}

/// What a key of a masked answer leads to.
pub enum AnswerStep {
    Continue,
    CopyLink,
    Done(Option<String>),
}

/// What an [`AnswerStep`] holds.
pub enum AnswerStepView {
    Continue,
    CopyLink,
    Done(Option<Seq<char>>),
}

impl View for AnswerStep {
    type V = AnswerStepView;

    open spec fn view(&self) -> AnswerStepView {
        match self {
            AnswerStep::Continue => AnswerStepView::Continue,
            AnswerStep::CopyLink => AnswerStepView::CopyLink,
            AnswerStep::Done(text) => AnswerStepView::Done(text_view(*text)),
        }
    }
}

/// What a request of an extension leads to.
#[derive(Clone, Copy, Debug, PartialEq, Eq, Structural)]
pub enum DialogOpening {
    /// The screen is not drawn: it is asked for as text.
    Plain,
    /// It cannot be shown in full, and is turned down.
    Refused,
    Opened,
}

/// What flushing the screen leads to.
#[derive(Clone, Copy, Debug, PartialEq, Eq, Structural)]
pub enum FlushStep {
    Render,
    /// A frame is drawn soon.
    Later,
    /// Flush the terminal itself.
    Output,
}


impl ScreenView {
    pub open spec fn select_keyed(self, byte: u8, nav: Navigation, rows: nat) -> (
        ScreenView,
        SelectStep,
    ) {
        let closed = ScreenView { picker: None, ..self };
        match self.picker {
            None => (closed, SelectStep::Done(None)),
            Some(p) => if byte == 13 || byte == 10 {
                (closed, SelectStep::Done(Some(p.selected)))
            } else if byte == 3 || byte == 4 || (byte == 27 && nav == Navigation::Escape) {
                (closed, SelectStep::Done(None))
            } else if byte == 27 && nav is EscapeWith {
                (
                    closed.with_input(
                        InputView { held: Some(nav->EscapeWith_0), ..closed.input },
                    ),
                    SelectStep::Done(None),
                )
            } else {
                let key = if byte == 27 {
                    nav
                } else if byte == 106 {
                    Navigation::Down
                } else if byte == 107 {
                    Navigation::Up
                } else {
                    Navigation::Other
                };
                (
                    ScreenView {
                        picker: Some(list_key(p, key, crate::input::list_rows_of(rows))),
                        ..self
                    },
                    SelectStep::Continue,
                )
            },
        }
    }

    /// A dialog cannot stay open.
    pub open spec fn modal_ends(self, now: u64, columns: nat, rows: nat) -> bool {
        match self.modal {
            Some(m) => m.expired(now) || columns < 20 || rows < 14,
            None => true,
        }
    }

    pub open spec fn modal_keyed(self, byte: u8, nav: Navigation, now: u64) -> (
        ScreenView,
        ModalStepView,
    ) {
        match self.modal {
            None => (self.modal_closed(), ModalStepView::Done(None)),
            Some(m) => if m.expired(now) {
                (self.modal_closed(), ModalStepView::Done(None))
            } else if byte == 25 && self.auth_url is Some {
                (self, ModalStepView::CopyLink)
            } else if byte == 27 && nav == Navigation::Escape {
                (self.modal_closed(), ModalStepView::Done(None))
            } else if byte == 27 && nav is EscapeWith {
                let closed = self.modal_closed();
                (
                    closed.with_input(
                        InputView { held: Some(nav->EscapeWith_0), ..closed.input },
                    ),
                    ModalStepView::Done(None),
                )
            } else if byte == 27 {
                (
                    ScreenView { modal: Some(crate::modal::navigated(m, nav)), ..self },
                    ModalStepView::Continue,
                )
            } else {
                let (after, answer) = crate::modal::keyed(m, byte, now);
                match answer {
                    Some(answer) => (
                        self.modal_closed(),
                        ModalStepView::Done(Some(answer)),
                    ),
                    None => (
                        ScreenView { modal: Some(after), ..self },
                        ModalStepView::Continue,
                    ),
                }
            },
        }
    }

    /// A masked answer begins or ends.
    pub open spec fn answering(self, secret: bool, begins: bool) -> ScreenView {
        self.with_input(
            InputView {
                composer: crate::composer::ComposerView {
                    draft: Seq::empty(),
                    cursor: 0,
                    ..self.input.composer
                },
                secret,
                suggestions: if begins {
                    None
                } else {
                    self.input.suggestions
                },
                ..self.input
            },
        )
    }

    /// The draft becomes `text`.
    pub open spec fn drafted(self, text: Seq<char>) -> ScreenView {
        self.with_input(
            InputView {
                composer: crate::composer::ComposerView {
                    draft: text,
                    cursor: text.len(),
                    ..self.input.composer
                },
                ..self.input
            },
        )
    }

    /// A key of an answer that is typed without a dialog.
    pub open spec fn answer_keyed(self, pending: Seq<u8>, byte: u8, nav: Navigation) -> (
        ScreenView,
        Seq<u8>,
        AnswerStepView,
    ) {
        let draft = self.input.draft();
        if byte == 13 || byte == 10 {
            (self, pending, AnswerStepView::Done(Some(draft)))
        } else if byte == 25 {
            (self, pending, AnswerStepView::CopyLink)
        } else if byte == 3 || byte == 4 || (byte == 27 && (nav == Navigation::Escape
            || nav is EscapeWith)) {
            (self, pending, AnswerStepView::Done(None))
        } else if byte == 8 || byte == 127 {
            (
                self.drafted(
                    if draft.len() > 0 {
                        draft.drop_last()
                    } else {
                        draft
                    },
                ),
                Seq::empty(),
                AnswerStepView::Continue,
            )
        } else if crate::input::printable(byte) && encode_utf8(draft).len() < 8192 {
            let (left, text) = crate::utf8::pushed(pending, byte);
            (
                if text.len() > 0 {
                    self.drafted(draft + text)
                } else {
                    self
                },
                left,
                AnswerStepView::Continue,
            )
        } else {
            (self, pending, AnswerStepView::Continue)
        }
    }
}

impl Screen {
    /// The screen for a terminal: `term` is what the variable `TERM` says.
    pub fn new(
        interactive: bool,
        terminal: bool,
        term: Option<&str>,
        no_color: bool,
        synchronized: bool,
        workspace: Option<&str>,
        columns: usize,
        rows: usize,
    ) -> (r: Self)
        ensures
            r@.wf(),
            ({
                let full = can_draw(
                    interactive,
                    terminal,
                    match term {
                        Some(name) => Some(name@),
                        None => None,
                    },
                    columns,
                    rows,
                );
                r@ == ScreenView::fresh(
                    full,
                    full && !no_color,
                    synchronized,
                    match workspace {
                        Some(name) => without_controls(name@),
                        None => "workspace"@,
                    },
                )
            }),
    {
        let named = match term {
            Some(name) => !same(name, "dumb"),
            None => false,
        };
        let full = interactive && terminal && named && columns >= 40 && rows >= 14;
        Screen {
            full,
            suspended: true,
            color: full && !no_color,
            painter: Painter::new(synchronized),
            last_paint: None,
            paint_pending: false,
            transcript: Transcript::new(),
            workspace: match workspace {
                Some(name) => clean(name),
                None => copy("workspace"),
            },
            input: Input::new(),
            disconnected: false,
            pending: Pending::new(),
            model: copy("no model"),
            session: copy("new chat"),
            picker: None,
            modal: None,
            saved_scroll: 0,
            auth_url: None,
            activity: None,
            goal: None,
            warning: copy(""),
        }
    }

    pub fn is_full(&self) -> (r: bool)
        ensures
            r == self@.full,
    {
        self.full
    }

    pub fn draws(&self) -> (r: bool)
        ensures
            r == self@.draws(),
    {
        self.full && !self.suspended
    }

    /// Show a link to sign in, where it is one that may be shown.
    pub fn set_auth_url(&mut self, url: &str) -> (r: bool)
        ensures
            r == shows_link(url@),
            final(self)@ == (if r {
                ScreenView { auth_url: Some(url@), ..old(self)@ }
            } else {
                old(self)@
            }),
            old(self)@.wf() ==> final(self)@.wf(),
    {
        let chars = chars_of(url);
        if !starts_text(chars.as_slice(), "https://") || url.as_bytes().len() > MAX_URL
            || any_control(chars.as_slice()) {
            return false;
        }
        self.auth_url = Some(copy(url));
        assert(self@ =~= (ScreenView { auth_url: Some(url@), ..old(self)@ }));
        true
    }

    pub fn clear_auth_url(&mut self)
        ensures
            final(self)@ == (ScreenView { auth_url: None, ..old(self)@ }),
            old(self)@.wf() ==> final(self)@.wf(),
    {
        self.auth_url = None;
        assert(self@ =~= (ScreenView { auth_url: None, ..old(self)@ }));
    }

    /// Offer the link to the terminal's clipboard: what must be written. That
    /// it was offered is said in the conversation, or with it where none is
    /// drawn.
    pub fn copy_auth_url(&mut self) -> (r: Option<String>)
        requires
            old(self)@.wf(),
        ensures
            match old(self)@.auth_url {
                None => r is None && final(self)@ == old(self)@,
                Some(url) => r is Some && r->0@ == "\x1b]52;c;"@ + encoded(encode_utf8(url)) + "\x07"@
                    + (if old(self)@.draws() {
                    ""@
                } else {
                    COPIED@
                }) && final(self)@ == old(self)@.written(encode_utf8(COPIED@)),
            },
            final(self)@.wf(),
    {
        let out = match &self.auth_url {
            None => {
                return None;
            },
            Some(url) => {
                let code = base64(url.as_str().as_bytes());
                cat3("\x1b]52;c;", code.as_str(), "\x07")
            },
        };
        if self.draws() {
            let _ = self.write(COPIED.as_bytes());
            Some(cat2(out.as_str(), ""))
        } else {
            Some(cat2(out.as_str(), COPIED))
        }
    }

    /// Some text arrived; whether it is in the conversation. Otherwise it
    /// passes through.
    pub fn write(&mut self, bytes: &[u8]) -> (r: bool)
        requires
            old(self)@.wf(),
        ensures
            r == old(self)@.draws(),
            final(self)@ == old(self)@.written(bytes@),
            final(self)@.wf(),
    {
        if !self.draws() {
            return false;
        }
        self.transcript.write(bytes);
        assert(self@ =~= old(self)@.written(bytes@));
        true
    }

    /// What flushing leads to.
    pub fn flush(&mut self, now: u64) -> (r: FlushStep)
        requires
            old(self)@.wf(),
        ensures
            r == (if !old(self)@.draws() {
                FlushStep::Output
            } else if !old(self)@.working() || old(self)@.frame_due(now) {
                FlushStep::Render
            } else {
                FlushStep::Later
            }),
            final(self)@ == (if old(self)@.draws() && old(self)@.working() {
                ScreenView { paint_pending: true, ..old(self)@ }
            } else {
                old(self)@
            }),
            final(self)@.wf(),
    {
        if !self.draws() {
            return FlushStep::Output;
        }
        if self.activity.is_none() {
            return FlushStep::Render;
        }
        self.paint_pending = true;
        assert(self@ =~= (ScreenView { paint_pending: true, ..old(self)@ }));
        if self.is_frame_due(now) {
            FlushStep::Render
        } else {
            FlushStep::Later
        }
    }

    fn is_frame_due(&self, now: u64) -> (r: bool)
        ensures
            r == self@.frame_due(now),
    {
        match self.last_paint {
            Some(last) => elapsed(now, last) >= FRAME_TIME,
            None => true,
        }
    }

    pub fn invalidate(&mut self)
        ensures
            final(self)@ == old(self)@.invalidated(),
            old(self)@.wf() ==> final(self)@.wf(),
    {
        self.painter.invalidate();
        self.last_paint = None;
        assert(self@ =~= old(self)@.invalidated());
    }

    /// Leave the screen: what must be written, where it is drawn.
    pub fn suspend(&mut self) -> (r: Option<String>)
        ensures
            old(self)@.draws() ==> r is Some && r->0@ == leave_sequence(old(self)@.color)
                && final(self)@ == (ScreenView { suspended: true, ..old(self)@.invalidated() }),
            !old(self)@.draws() ==> r is None && final(self)@ == old(self)@,
            old(self)@.wf() ==> final(self)@.wf(),
    {
        if !self.draws() {
            return None;
        }
        self.invalidate();
        self.suspended = true;
        let mut out = cat2(SYNC_END, "\x1b[<u\x1b[?1000l\x1b[?1006l");
        out.append(
            if self.color {
                "\x1b[0m"
            } else {
                ""
            },
        );
        out.append("\x1b[?25h\x1b[?1049l\x1b[0 q");
        assert(self@ =~= (ScreenView { suspended: true, ..old(self)@.invalidated() }));
        Some(out)
    }

    /// Enter the screen: what must be written, where it is drawn and was left.
    pub fn resume(&mut self) -> (r: Option<String>)
        ensures
            old(self)@.full && old(self)@.suspended ==> r is Some && r->0@ == enter_sequence(
                old(self)@.color,
            ) && final(self)@ == (ScreenView { suspended: false, ..old(self)@.invalidated() }),
            !(old(self)@.full && old(self)@.suspended) ==> r is None && final(self)@ == old(self)@,
            old(self)@.wf() ==> final(self)@.wf(),
    {
        if !self.full || !self.suspended {
            return None;
        }
        self.invalidate();
        self.suspended = false;
        let mut out = copy("\x1b[?1049h\x1b[2 q\x1b[>1u");
        out.append(
            if self.color {
                BASE_BACKGROUND
            } else {
                ""
            },
        );
        out.append("\x1b[2J\x1b[?1000h\x1b[?1006h\x1b[?25l");
        assert(self@ =~= (ScreenView { suspended: false, ..old(self)@.invalidated() }));
        Some(out)
    }

    /// The model and the session.
    pub fn status(&mut self, state: &Json)
        requires
            old(self)@.wf(),
        ensures
            final(self)@ == (ScreenView {
                model: model_of(state@),
                session: session_of(state@),
                ..old(self)@
            }),
            final(self)@.wf(),
    {
        let about = state.at("model");
        let provider = about.text_or("provider", "");
        let model = clean(about.text_or("id", "no model"));
        self.model = if chars_of(provider).len() == 0 {
            model
        } else {
            cat3(clean(provider).as_str(), "/", model.as_str())
        };
        self.session = session_name(state);
        assert(self@ =~= (ScreenView {
            model: model_of(state@),
            session: session_of(state@),
            ..old(self)@
        }));
    }

    /// A message of the user begins a turn; the text to print where no
    /// conversation is drawn.
    pub fn user(&mut self, text: &str) -> (r: Option<String>)
        requires
            old(self)@.wf(),
        ensures
            final(self)@ == old(self)@.asked(text@),
            final(self)@.wf(),
            old(self)@.full ==> r is None,
            !old(self)@.full ==> r is Some && r->0@ == "\nyou › "@ + text@ + "\n"@,
    {
        self.input.composer.clear();
        self.input.suggestions = None;
        let ghost cleared = old(self)@.with_input(old(self)@.draft_cleared());
        assert(self@ =~= cleared);
        if self.full {
            self.transcript.ask(text);
            assert(self@ =~= old(self)@.asked(text@));
            None
        } else {
            self.transcript.scroll = 0;
            assert(self@.transcript =~= (TranscriptView { scroll: 0, ..cleared.transcript }));
            assert(self@ =~= old(self)@.asked(text@));
            Some(cat3("\nyou › ", text, "\n"))
        }
    }

    /// Reset the view after Pi has created a new session. What Pi has saved is
    /// not touched.
    pub fn clear_session(&mut self)
        ensures
            final(self)@ == old(self)@.session_cleared(),
            final(self)@.wf(),
    {
        self.transcript.clear();
        self.input.composer.clear();
        self.input.composer.scroll = 0;
        self.input.clear_images();
        self.input.suggestions = None;
        self.input.dismissed = false;
        self.input.restored = None;
        self.input.rejected = None;
        self.input.active_utf8.clear();
        self.input.input_notice = None;
        self.input.secret = false;
        self.pending.clear();
        self.pending.expect(None);
        self.picker = None;
        self.modal = None;
        self.auth_url = None;
        self.activity = None;
        self.goal = None;
        self.session = copy("new chat");
        let ghost want = old(self)@.session_cleared();
        assert(self@.input.composer =~= want.input.composer);
        assert(self@.input =~= want.input);
        assert(self@.pending =~= want.pending);
        assert(self@ =~= want);
    }

    /// A key that is handled before any other.
    pub fn defer_input(&mut self, byte: u8)
        ensures
            final(self)@ == old(self)@.with_input(
                InputView { held: Some(byte), ..old(self)@.input },
            ),
            old(self)@.wf() ==> final(self)@.wf(),
    {
        self.input.held = Some(byte);
        assert(self@.input =~= (InputView { held: Some(byte), ..old(self)@.input }));
        assert(self@ =~= old(self)@.with_input(
            InputView { held: Some(byte), ..old(self)@.input },
        ));
    }

    /// The key that is handled before any other.
    pub fn pending_key(&mut self) -> (r: Option<u8>)
        ensures
            r == old(self)@.input.held,
            final(self)@ == old(self)@.with_input(InputView { held: None, ..old(self)@.input }),
            old(self)@.wf() ==> final(self)@.wf(),
    {
        let byte = self.input.held.take();
        assert(self@.input =~= (InputView { held: None, ..old(self)@.input }));
        assert(self@ =~= old(self)@.with_input(InputView { held: None, ..old(self)@.input }));
        byte
    }

    /// What Pi turned down.
    pub fn take_rejected_queue(&mut self) -> (r: Option<(String, Vec<SharedImage>)>)
        ensures
            crate::input::kept_view(r) == old(self)@.input.rejected,
            final(self)@ == old(self)@.with_input(InputView { rejected: None, ..old(self)@.input }),
            old(self)@.wf() ==> final(self)@.wf(),
    {
        let kept = self.input.rejected.take();
        assert(self@.input =~= (InputView { rejected: None, ..old(self)@.input }));
        assert(self@ =~= old(self)@.with_input(InputView { rejected: None, ..old(self)@.input }));
        kept
    }

    /// The next prompt begins with this draft.
    pub fn restore_draft(&mut self, text: String, images: Vec<SharedImage>)
        ensures
            final(self)@ == old(self)@.with_input(
                InputView {
                    restored: Some((text@, image_trees(images@))),
                    ..old(self)@.input
                },
            ),
            old(self)@.wf() ==> final(self)@.wf(),
    {
        let ghost kept = (text@, image_trees(images@));
        self.input.restored = Some((text, images));
        assert(self@.input =~= (InputView { restored: Some(kept), ..old(self)@.input }));
        assert(self@ =~= old(self)@.with_input(
            InputView { restored: Some(kept), ..old(self)@.input },
        ));
    }

    /// Details of a goal arrived.
    pub fn set_goal(&mut self, details: &Json)
        requires
            old(self)@.wf(),
        ensures
            final(self)@ == (ScreenView {
                goal: goal_after(old(self)@.goal, details@),
                ..old(self)@
            }),
            final(self)@.wf(),
    {
        let d = details.at("hibiscusGoal");
        if d.get("error").is_none() {
            if let Some(completed) = d.at("completed").as_natural() {
                if let Some(total) = d.at("total").as_natural() {
                    if total <= 50 && completed <= total {
                        self.goal = if total > 0 {
                            Some((completed as usize, total as usize))
                        } else {
                            None
                        };
                    }
                }
            }
        }
        assert(self@ =~= (ScreenView {
            goal: goal_after(old(self)@.goal, details@),
            ..old(self)@
        }));
    }

    /// The goal of a session that is opened.
    pub fn restore_goal(&mut self, messages: &Vec<Json>)
        requires
            old(self)@.wf(),
        ensures
            final(self)@ == (ScreenView {
                goal: goal_of(trees(messages@), messages@.len()),
                ..old(self)@
            }),
            final(self)@.wf(),
    {
        let ghost start = self@;
        self.goal = None;
        let ghost all = trees(messages@);
        let mut i: usize = 0;
        assert(self@ =~= (ScreenView { goal: goal_of(all, 0), ..start }));
        while i < messages.len()
            invariant
                i <= messages@.len(),
                all == trees(messages@),
                self@.wf(),
                self@ == (ScreenView { goal: goal_of(all, i as nat), ..start }),
            decreases messages@.len() - i,
        {
            let message = &messages[i];
            assert(all[i as int] == message@);
            if message.says("role", "toolResult") && message.says("toolName", "goal") {
                self.set_goal(message.at("details"));
            }
            i = i + 1;
            assert(self@ =~= (ScreenView { goal: goal_of(all, i as nat), ..start }));
        }
    }

    /// Details of a goal arrived while Pi works.
    pub fn goal(&mut self, details: &Json)
        requires
            old(self)@.wf(),
        ensures
            final(self)@ == (if old(self)@.full {
                ScreenView { goal: goal_after(old(self)@.goal, details@), ..old(self)@ }
            } else {
                old(self)@
            }),
            final(self)@.wf(),
    {
        if self.full {
            self.set_goal(details);
        }
    }

    pub fn set_disconnected(&mut self, disconnected: bool)
        requires
            old(self)@.wf(),
        ensures
            final(self)@ == (ScreenView { disconnected, activity: None, ..old(self)@ }),
            final(self)@.wf(),
    {
        self.disconnected = disconnected;
        self.activity = None;
        assert(self@ =~= (ScreenView { disconnected, activity: None, ..old(self)@ }));
    }

    /// What Pi said on its diagnostic stream, for the last row.
    pub fn warn(&mut self, text: &str)
        requires
            old(self)@.wf(),
        ensures
            final(self)@ == (ScreenView { warning: text@, ..old(self)@ }),
            final(self)@.wf(),
    {
        self.warning = copy(text);
        assert(self@ =~= (ScreenView { warning: text@, ..old(self)@ }));
    }

    /// Sessions are looked for: the notice that this replaces.
    pub fn start_session_scan(&mut self) -> (notice: Option<String>)
        requires
            old(self)@.wf(),
        ensures
            text_view(notice) == old(self)@.input.input_notice,
            final(self)@ == old(self)@.with_input(
                InputView { input_notice: Some(LOADING@), ..old(self)@.input },
            ),
            final(self)@.wf(),
    {
        let notice = self.input.input_notice.take();
        self.input.input_notice = Some(copy(LOADING));
        assert(self@.input =~= (InputView { input_notice: Some(LOADING@), ..old(self)@.input }));
        assert(self@ =~= old(self)@.with_input(self@.input));
        notice
    }

    /// What was typed meanwhile is in the draft.
    pub fn defer_session_typing(&mut self, bytes: &[u8], columns: usize, rows: usize)
        requires
            old(self)@.wf(),
        ensures
            final(self)@ == old(self)@.typed(
                bytes@,
                bytes@.len(),
                columns as nat,
                rows as nat,
            ),
            final(self)@.wf(),
    {
        let ghost start = self@;
        let n: usize = bytes.len();
        let none: Vec<u8> = Vec::new();
        assert(none@ =~= Seq::empty());
        let mut i: usize = 0;
        while i < n
            invariant
                i <= n,
                n == bytes@.len(),
                none@ == Seq::<u8>::empty(),
                self@.wf(),
                self@ == start.typed(bytes@, i as nat, columns as nat, rows as nat),
            decreases n - i,
        {
            let byte: u8 = bytes[i];
            let ghost s = self@;
            if crate::input::is_printable(byte) {
                let _ = self.active_text(byte, none.as_slice(), columns);
            } else if byte == 8 || byte == 127 {
                let working = self.activity.is_some();
                self.input.backspace(working, columns, rows);
                assert(self@ =~= s.with_input(self@.input));
            }
            i = i + 1;
        }
    }

    /// The sessions are known, or given up.
    pub fn end_session_scan(&mut self, notice: Option<String>)
        requires
            old(self)@.wf(),
        ensures
            final(self)@ == old(self)@.with_input(
                InputView { input_notice: text_view(notice), ..old(self)@.input },
            ),
            final(self)@.wf(),
    {
        let ghost shown = text_view(notice);
        self.input.input_notice = notice;
        assert(self@.input =~= (InputView { input_notice: shown, ..old(self)@.input }));
        assert(self@ =~= old(self)@.with_input(self@.input));
    }

    /// Move the conversation.
    pub fn scroll(&mut self, nav: Navigation, rows: usize)
        requires
            old(self)@.wf(),
        ensures
            final(self)@ == old(self)@.scrolled(nav, rows as nat),
            final(self)@.wf(),
    {
        let step: usize = if rows > 11 {
            rows - 10
        } else {
            1
        };
        let offset: i128 = match nav {
            Navigation::ScrollPage(direction) => {
                assert(-0x1_0000_0000_0000_0000_0000_0000 <= direction * step
                    <= 0x1_0000_0000_0000_0000_0000_0000) by (nonlinear_arith)
                    requires
                        -0x8000_0000 <= direction <= 0x7fff_ffff,
                        1 <= step <= 0xffff_ffff_ffff_ffff,
                ;
                direction as i128 * step as i128
            },
            Navigation::ScrollLines(lines) => lines as i128,
            Navigation::MouseScroll(lines, _) => lines as i128,
            _ => 0,
        };
        self.transcript.scroll_by(offset);
        assert(self@ =~= old(self)@.scrolled(nav, rows as nat));
    }

    fn settle(&mut self, step: NavStep, rows: usize) -> (read: bool)
        requires
            old(self)@.wf(),
        ensures
            (final(self)@, read) == old(self)@.settled(step, rows as nat),
            final(self)@.wf(),
    {
        match step {
            NavStep::Done => false,
            NavStep::ReadClipboard => true,
            NavStep::Scroll(key) => {
                self.scroll(key, rows);
                false
            },
        }
    }
}

pub open spec fn trees(messages: Seq<Json>) -> Seq<Tree> {
    Seq::new(messages.len(), |i: int| messages[i]@)
}

fn session_name(state: &Json) -> (out: String)
    ensures
        out@ == session_of(state@),
{
    if let Some(name) = state.text_at("sessionName") {
        if chars_of(name).len() > 0 {
            return clean(name);
        }
    }
    match state.text_at("sessionId") {
        Some(id) => clean(crate::ui::first_chars(id, 8).as_str()),
        None => copy("new chat"),
    }
}


impl Screen {
    /// Begin a prompt.
    pub fn begin_prompt(&mut self, columns: usize, rows: usize) -> (prompt: Prompt)
        requires
            old(self)@.wf(),
        ensures
            ({
                let (input, p) = old(self)@.input.begun(
                    old(self)@.working(),
                    columns as nat,
                    rows as nat,
                );
                final(self)@ == old(self)@.with_input(input) && prompt@ == p
            }),
            final(self)@.wf(),
    {
        let working = self.activity.is_some();
        let prompt = self.input.begin(working, columns, rows);
        assert(self@ =~= old(self)@.with_input(self@.input));
        prompt
    }

    /// A key at a prompt: what is left to do, and whether an image must be
    /// read. `nav` is what an escape sequence stands for.
    pub fn prompt_key(
        &mut self,
        prompt: &mut Prompt,
        byte: u8,
        nav: Navigation,
        columns: usize,
        rows: usize,
    ) -> (r: (PromptStep, bool))
        requires
            old(self)@.wf(),
        ensures
            ({
                let (input, p, step) = old(self)@.input.prompted(
                    old(prompt)@,
                    byte,
                    nav,
                    old(self)@.working(),
                    columns as nat,
                    rows as nat,
                );
                let s = old(self)@.with_input(input);
                &&& final(prompt)@ == p
                &&& r.0@ == step
                &&& (final(self)@, r.1) == match step {
                    PromptStepView::Nav(nav_step) => s.settled(nav_step, rows as nat),
                    _ => (s, false),
                }
            }),
            final(self)@.wf(),
    {
        let working = self.activity.is_some();
        let step = self.input.prompt_key(prompt, byte, nav, working, columns, rows);
        assert(self@ =~= old(self)@.with_input(self@.input));
        let read = match &step {
            PromptStep::Nav(nav_step) => self.settle(*nav_step, rows),
            _ => false,
        };
        (step, read)
    }

    /// A run of text at a prompt; how many of the bytes `more` are taken.
    pub fn prompt_text(
        &mut self,
        prompt: &mut Prompt,
        first: u8,
        more: &[u8],
        columns: usize,
        rows: usize,
    ) -> (taken: usize)
        requires
            old(self)@.wf(),
        ensures
            ({
                let (input, left) = old(self)@.input.batched(
                    first,
                    more@,
                    old(prompt)@.pending,
                    columns as nat,
                );
                &&& final(prompt)@ == (PromptView { pending: left, ..old(prompt)@ })
                &&& final(self)@ == old(self)@.with_input(
                    InputView { dismissed: false, ..input }.refreshed(
                        old(self)@.working(),
                        rows as nat,
                    ),
                )
            }),
            final(self)@.wf(),
            taken == crate::input::run_end(more@, 0) + (if crate::input::stopper(
                more@,
            ) is Some {
                1int
            } else {
                0
            }),
            taken <= more@.len(),
    {
        let taken: usize = self.input.insert_batch(first, more, &mut prompt.pending, columns);
        let ghost input = self@.input;
        self.input.dismissed = false;
        assert(self@.input =~= (InputView { dismissed: false, ..input }));
        let working = self.activity.is_some();
        self.input.refresh_suggestions(working, rows);
        assert(self@ =~= old(self)@.with_input(self@.input));
        taken
    }

    /// Whether typed text may be sent while Pi works.
    pub fn live_input(&self) -> (r: bool)
        ensures
            r == (self@.full && self@.working()),
    {
        self.full && self.activity.is_some()
    }

    /// A key while Pi works: what is left to do, and whether an image must be
    /// read. `nav` is what an escape sequence stands for.
    pub fn active_key(&mut self, byte: u8, nav: Navigation, columns: usize, rows: usize) -> (r: (
        ActiveStep,
        bool,
    ))
        requires
            old(self)@.wf(),
        ensures
            ({
                let (input, step) = old(self)@.input.acted(
                    byte,
                    nav,
                    old(self)@.working(),
                    columns as nat,
                    rows as nat,
                );
                let s = old(self)@.with_input(input);
                &&& r.0@ == step
                &&& (final(self)@, r.1) == match step {
                    ActiveStepView::Nav(nav_step) => s.settled(nav_step, rows as nat),
                    _ => (s, false),
                }
            }),
            final(self)@.wf(),
    {
        let working = self.activity.is_some();
        let step = self.input.active_key(byte, nav, working, columns, rows);
        assert(self@ =~= old(self)@.with_input(self@.input));
        let read = match &step {
            ActiveStep::Nav(nav_step) => self.settle(*nav_step, rows),
            _ => false,
        };
        (step, read)
    }

    /// A run of text while Pi works; how many of the bytes `more` are taken.
    pub fn active_text(&mut self, first: u8, more: &[u8], columns: usize) -> (taken: usize)
        requires
            old(self)@.wf(),
        ensures
            ({
                let (input, left) = InputView {
                    active_utf8: Seq::empty(),
                    ..old(self)@.input
                }.batched(first, more@, old(self)@.input.active_utf8, columns as nat);
                final(self)@ == old(self)@.with_input(InputView { active_utf8: left, ..input })
            }),
            final(self)@.wf(),
            taken == crate::input::run_end(more@, 0) + (if crate::input::stopper(
                more@,
            ) is Some {
                1int
            } else {
                0
            }),
            taken <= more@.len(),
    {
        let mut pending: Vec<u8> = Vec::new();
        std::mem::swap(&mut pending, &mut self.input.active_utf8);
        assert(self@.input =~= (InputView { active_utf8: Seq::empty(), ..old(self)@.input }));
        let taken: usize = self.input.insert_batch(first, more, &mut pending, columns);
        let ghost input = self@.input;
        let ghost left = pending@;
        self.input.active_utf8 = pending;
        assert(self@.input =~= (InputView { active_utf8: left, ..input }));
        assert(self@ =~= old(self)@.with_input(InputView { active_utf8: left, ..input }));
        taken
    }

    /// A read of the clipboard is over.
    pub fn on_clipboard(&mut self, result: Result<Json, String>)
        requires
            old(self)@.wf(),
        ensures
            final(self)@ == old(self)@.with_input(
                old(self)@.input.answered(
                    match result {
                        Ok(image) => Ok::<Tree, Seq<char>>(image@),
                        Err(message) => Err::<Tree, Seq<char>>(message@),
                    },
                ),
            ),
            final(self)@.wf(),
    {
        self.input.on_clipboard(result);
        assert(self@ =~= old(self)@.with_input(self@.input));
    }

    /// Take the attachments of a message that is sent.
    pub fn take_images(&mut self) -> (out: Vec<SharedImage>)
        requires
            old(self)@.wf(),
        ensures
            image_trees(out@) == old(self)@.input.images,
            final(self)@ == old(self)@.with_input(
                InputView { images: Seq::empty(), clipboard_notice: ""@, ..old(self)@.input },
            ),
            final(self)@.wf(),
    {
        let out = self.input.take_images();
        assert(self@ =~= old(self)@.with_input(self@.input));
        out
    }

    /// Pi begins to work.
    pub fn start_work(&mut self, now: u64)
        requires
            old(self)@.wf(),
        ensures
            final(self)@ == old(self)@.work_started(now),
            final(self)@.wf(),
    {
        self.transcript.current = None;
        assert(self@.transcript =~= (TranscriptView { current: None, ..old(self)@.transcript }));
        if self.full {
            self.activity = Some(
                Activity {
                    phase: copy("Working…"),
                    started: now,
                    last_refresh: now,
                    last_spinner: now,
                    flower: 0,
                },
            );
        }
        assert(self@ =~= old(self)@.work_started(now));
    }

    /// What Pi is at.
    pub fn set_work(&mut self, phase: &str)
        requires
            old(self)@.wf(),
        ensures
            final(self)@ == old(self)@.phase_set(phase@),
            final(self)@.wf(),
    {
        let ghost start = self@;
        match self.activity.take() {
            Some(mut activity) => {
                activity.phase = clean_prefix(phase, 90);
                self.activity = Some(activity);
            },
            None => {},
        }
        assert(self@ =~= start.phase_set(phase@));
    }

    /// Time passes while Pi works; whether a frame must be drawn.
    pub fn tick_work(&mut self, now: u64, columns: usize, rows: usize) -> (r: bool)
        requires
            old(self)@.wf(),
        ensures
            final(self)@ == old(self)@.ticked(now).0,
            final(self)@.wf(),
            r == (old(self)@.ticked(now).1 || old(self)@.painter.dimensions != Some((columns, rows))
                || (old(self)@.paint_pending && old(self)@.frame_due(now))),
    {
        let ghost start = self@;
        let mut changed = false;
        match self.activity.take() {
            Some(mut activity) => {
                if elapsed(now, activity.last_refresh) >= REFRESH_TIME {
                    activity.last_refresh = now;
                    changed = true;
                }
                if elapsed(now, activity.last_spinner) >= SPINNER_TIME {
                    activity.last_spinner = now;
                    activity.flower = (activity.flower + 1) % 4;
                    changed = true;
                    let _ = self.transcript.turn();
                }
                self.activity = Some(activity);
            },
            None => {},
        }
        assert(self@ =~= start.ticked(now).0);
        changed || self.painter.resized((columns, rows)) || (self.paint_pending
            && self.is_frame_due(now))
    }

    /// Pi has settled.
    pub fn stop_work(&mut self)
        requires
            old(self)@.wf(),
        ensures
            final(self)@ == old(self)@.work_stopped(),
            final(self)@.wf(),
    {
        let ghost start = self@;
        self.transcript.freeze(self.full);
        self.pending.clear();
        self.pending.expect(None);
        let passing = match &self.input.input_notice {
            Some(notice) => {
                let chars = chars_of(notice.as_str());
                contains_text(chars.as_slice(), "accepted by Pi") || starts_text(
                    chars.as_slice(),
                    "Sending",
                ) || starts_text(chars.as_slice(), "Queueing")
            },
            None => false,
        };
        if passing {
            self.input.input_notice = None;
        }
        if self.full {
            self.transcript.trim();
        }
        self.activity = None;
        let ghost want = start.work_stopped();
        assert(self@.input =~= want.input);
        assert(self@.pending =~= want.pending);
        assert(self@ =~= want);
    }

    /// A tool begins; whether the conversation shows it.
    pub fn tool_start(&mut self, id: &str, name: &str, path: &str) -> (r: bool)
        requires
            old(self)@.wf(),
        ensures
            r == old(self)@.full,
            final(self)@ == (if r {
                ScreenView {
                    transcript: old(self)@.transcript.tool_start(id@, name@, path@),
                    ..old(self)@
                }
            } else {
                old(self)@
            }),
            final(self)@.wf(),
    {
        if !self.full {
            return false;
        }
        self.transcript.tool_start(id, name, path);
        assert(self@ =~= (ScreenView { transcript: self@.transcript, ..old(self)@ }));
        true
    }

    /// A tool is done; whether the conversation shows it.
    pub fn tool_end(&mut self, id: &str, name: &str, path: &str, failed: bool, diff: Option<&str>) -> (r:
        bool)
        requires
            old(self)@.wf(),
        ensures
            r == old(self)@.full,
            final(self)@ == (if r {
                ScreenView {
                    transcript: old(self)@.transcript.tool_end(
                        id@,
                        name@,
                        path@,
                        failed,
                        match diff {
                            Some(text) => Some(text@),
                            None => None,
                        },
                    ),
                    ..old(self)@
                }
            } else {
                old(self)@
            }),
            final(self)@.wf(),
    {
        if !self.full {
            return false;
        }
        self.transcript.tool_end(id, name, path, failed, diff);
        assert(self@ =~= (ScreenView { transcript: self@.transcript, ..old(self)@ }));
        true
    }

    /// Text follows the activity so far.
    pub fn split_timeline(&mut self)
        requires
            old(self)@.wf(),
        ensures
            final(self)@ == (ScreenView {
                transcript: old(self)@.transcript.frozen(old(self)@.full),
                ..old(self)@
            }),
            final(self)@.wf(),
    {
        self.transcript.freeze(self.full);
        assert(self@ =~= (ScreenView { transcript: self@.transcript, ..old(self)@ }));
    }

    fn hold_back(&mut self, submission: &DraftSubmission, notice: &'static str, columns: usize)
        requires
            old(self)@.wf(),
        ensures
            final(self)@ == old(self)@.held_back(submission@, notice@, columns as nat),
            final(self)@.wf(),
    {
        self.input.return_draft(submission, columns);
        self.input.input_notice = Some(copy(notice));
        let ghost want = old(self)@.held_back(submission@, notice@, columns as nat);
        assert(self@.input =~= want.input);
        assert(self@ =~= want);
    }

    /// A submission came too early.
    pub fn hold_queue(&mut self, submission: &DraftSubmission, columns: usize)
        requires
            old(self)@.wf(),
        ensures
            final(self)@ == old(self)@.held_back(submission@, TOO_EARLY@, columns as nat),
            final(self)@.wf(),
    {
        self.hold_back(submission, TOO_EARLY, columns);
    }

    /// Nothing can be submitted while the context is compacted.
    pub fn keep_draft(&mut self, submission: &DraftSubmission, columns: usize)
        requires
            old(self)@.wf(),
        ensures
            final(self)@ == old(self)@.held_back(submission@, KEPT@, columns as nat),
            final(self)@.wf(),
    {
        self.hold_back(submission, KEPT, columns);
    }

    /// The message that begins a turn.
    pub fn expect_initial_user(&mut self, message: &str)
        requires
            old(self)@.wf(),
        ensures
            final(self)@ == (if old(self)@.full {
                ScreenView {
                    pending: PendingView { initial: Some(message@), ..old(self)@.pending },
                    ..old(self)@
                }
            } else {
                old(self)@
            }),
            final(self)@.wf(),
    {
        if self.full {
            self.pending.expect(Some(message));
            assert(self@ =~= (ScreenView { pending: self@.pending, ..old(self)@ }));
        }
    }

    /// Pi has accepted a submission.
    pub fn queued(&mut self, submission: &DraftSubmission)
        requires
            old(self)@.wf(),
        ensures
            final(self)@ == old(self)@.queued(submission@),
            final(self)@.wf(),
    {
        self.pending.queued(submission);
        let kind = match submission.mode {
            QueueMode::Steer => "steering",
            QueueMode::FollowUp => "follow-up",
        };
        self.input.input_notice = Some(cat2(kind, " accepted by Pi · waiting for delivery"));
        let ghost want = old(self)@.queued(submission@);
        assert(self@.input =~= want.input);
        assert(self@ =~= want);
    }

    /// Pi delivered a message of the user; whether it is shown.
    pub fn delivered_user(&mut self, message: &Json) -> (r: bool)
        requires
            old(self)@.wf(),
        ensures
            (final(self)@, r) == old(self)@.delivered(message@),
            final(self)@.wf(),
    {
        if !self.full {
            return false;
        }
        let ghost start = self@;
        let content = message.at("content");
        let (text, images) = user_content(content);
        if !self.pending.received(text.as_str()) {
            assert(self@ =~= start.delivered(message@).0);
            return false;
        }
        let chars = chars_of(text.as_str());
        let body = text_of(trimmed_start_of(chars.as_slice(), '\n'));
        let mut shown = cat2("\nyou › ", body.as_str());
        let note = if images > 0 {
            cat3(" [", decimal_text(images as u64).as_str(), " image(s) attached]")
        } else {
            copy("")
        };
        shown.append(note.as_str());
        shown.append("\n");
        assert(shown@ == shown_message(content@));
        if self.suspended {
            self.transcript.add(shown.as_str());
        } else {
            self.transcript.write(shown.as_str().as_bytes());
        }
        assert(self@ =~= start.delivered(message@).0);
        true
    }

    /// A submission was turned down.
    pub fn rejected_queue(&mut self, submission: &DraftSubmission, error: &str, columns: usize)
        requires
            old(self)@.wf(),
        ensures
            final(self)@ == old(self)@.rejected(submission@, error@, columns as nat),
            final(self)@.wf(),
    {
        self.pending.rejected(submission);
        self.input.return_draft(submission, columns);
        self.input.rejected = Some(
            (copy(submission.text.as_str()), share_images(&submission.images)),
        );
        let message = safe_message(error);
        self.input.input_notice = Some(
            cat3("Pi rejected queued message: ", message.as_str(), " · /restore after run"),
        );
        let ghost want = old(self)@.rejected(submission@, error@, columns as nat);
        assert(self@.input =~= want.input);
        assert(self@ =~= want);
    }

    /// Pi says what it holds back.
    pub fn queue_update(&mut self, update: &Json)
        requires
            old(self)@.wf(),
        ensures
            final(self)@ == (ScreenView {
                pending: old(self)@.pending.updated(update@),
                ..old(self)@
            }),
            final(self)@.wf(),
    {
        self.pending.update(update);
        assert(self@ =~= (ScreenView { pending: self@.pending, ..old(self)@ }));
    }

    pub fn clear_queue_display(&mut self)
        requires
            old(self)@.wf(),
        ensures
            final(self)@ == (ScreenView { pending: old(self)@.pending.cleared(), ..old(self)@ }),
            final(self)@.wf(),
    {
        self.pending.clear();
        assert(self@ =~= (ScreenView { pending: self@.pending, ..old(self)@ }));
    }

    /// Offer a list; whether it can be.
    pub fn begin_select(
        &mut self,
        title: &str,
        items: Vec<String>,
        current: Option<usize>,
        rows: usize,
    ) -> (r: bool)
        requires
            old(self)@.wf(),
        ensures
            r == (old(self)@.full && items@.len() > 0),
            final(self)@ == (if r {
                ScreenView {
                    picker: Some(
                        PickerView::opened(
                            without_controls(title@),
                            texts(items@),
                            current,
                            crate::input::list_rows_of(rows as nat),
                        ),
                    ),
                    ..old(self)@
                }
            } else {
                old(self)@
            }),
            final(self)@.wf(),
    {
        if !self.full || items.len() == 0 {
            return false;
        }
        let ghost all = texts(items@);
        assert(all.len() == items@.len());
        self.picker = Some(
            Picker::new(clean(title), items, current, crate::input::list_rows(rows)),
        );
        assert(self@ =~= (ScreenView {
            picker: Some(
                PickerView::opened(
                    without_controls(title@),
                    all,
                    current,
                    crate::input::list_rows_of(rows as nat),
                ),
            ),
            ..old(self)@
        }));
        true
    }

    /// A key in a list. `nav` is what an escape sequence stands for.
    pub fn select_key(&mut self, byte: u8, nav: Navigation, rows: usize) -> (step: SelectStep)
        requires
            old(self)@.wf(),
        ensures
            (final(self)@, step) == old(self)@.select_keyed(byte, nav, rows as nat),
            final(self)@.wf(),
    {
        let ghost start = self@;
        match self.picker.take() {
            None => {
                assert(self@ =~= (ScreenView { picker: None, ..start }));
                SelectStep::Done(None)
            },
            Some(mut picker) => {
                assert(self@ =~= (ScreenView { picker: None, ..start }));
                if byte == 13 || byte == 10 {
                    return SelectStep::Done(Some(picker.selected));
                }
                if byte == 3 || byte == 4 {
                    return SelectStep::Done(None);
                }
                let key = if byte == 27 {
                    if nav == Navigation::Escape {
                        return SelectStep::Done(None);
                    }
                    if let Navigation::EscapeWith(next) = nav {
                        self.defer_input(next);
                        return SelectStep::Done(None);
                    }
                    nav
                } else if byte == 106 {
                    Navigation::Down
                } else if byte == 107 {
                    Navigation::Up
                } else {
                    Navigation::Other
                };
                move_list(&mut picker, key, crate::input::list_rows(rows));
                self.picker = Some(picker);
                assert(self@ =~= start.select_keyed(byte, nav, rows as nat).0);
                SelectStep::Continue
            },
        }
    }

    /// The list is over.
    pub fn end_select(&mut self)
        requires
            old(self)@.wf(),
        ensures
            final(self)@ == (ScreenView { picker: None, ..old(self)@ }),
            final(self)@.wf(),
    {
        self.picker = None;
        assert(self@ =~= (ScreenView { picker: None, ..old(self)@ }));
    }

    /// Open a dialog.
    pub fn begin_modal(&mut self, modal: Modal)
        requires
            old(self)@.wf(),
            modal@.wf(),
        ensures
            final(self)@ == (ScreenView {
                modal: Some(modal@),
                saved_scroll: old(self)@.input.composer.scroll as usize,
                ..old(self)@
            }),
            final(self)@.wf(),
    {
        let ghost m = modal@;
        self.saved_scroll = self.input.composer.scroll;
        self.modal = Some(modal);
        assert(self@ =~= (ScreenView {
            modal: Some(m),
            saved_scroll: old(self)@.input.composer.scroll as usize,
            ..old(self)@
        }));
    }

    /// An extension asks for something.
    pub fn extension_dialog(&mut self, event: &Json, now: u64) -> (r: DialogOpening)
        requires
            old(self)@.wf(),
        ensures
            final(self)@.wf(),
            match from_rpc_of(event@, now) {
                _ if !old(self)@.draws() => r == DialogOpening::Plain && final(self)@ == old(
                    self,
                )@,
                None => r == DialogOpening::Refused && final(self)@ == old(self)@,
                Some(m) => r == DialogOpening::Opened && final(self)@ == (ScreenView {
                    modal: Some(m),
                    saved_scroll: old(self)@.input.composer.scroll as usize,
                    ..old(self)@
                }),
            },
    {
        if !self.draws() {
            return DialogOpening::Plain;
        }
        match Modal::from_rpc(event, now) {
            None => DialogOpening::Refused,
            Some(modal) => {
                self.begin_modal(modal);
                DialogOpening::Opened
            },
        }
    }

    /// Whether a dialog must be closed.
    pub fn modal_ends(&self, now: u64, columns: usize, rows: usize) -> (r: bool)
        ensures
            r == self@.modal_ends(now, columns as nat, rows as nat),
    {
        match &self.modal {
            Some(modal) => modal.expired(now) || columns < 20 || rows < 14,
            None => true,
        }
    }

    /// Close the dialog.
    pub fn end_modal(&mut self)
        requires
            old(self)@.wf(),
        ensures
            final(self)@ == old(self)@.modal_closed(),
            final(self)@.wf(),
    {
        self.modal = None;
        self.input.composer.scroll = self.saved_scroll;
        let ghost want = old(self)@.modal_closed();
        assert(self@.input.composer =~= want.input.composer);
        assert(self@.input =~= want.input);
        assert(self@ =~= want);
    }

    /// A key in a dialog. `nav` is what an escape sequence stands for.
    pub fn modal_key(&mut self, byte: u8, nav: Navigation, now: u64) -> (step: ModalStep)
        requires
            old(self)@.wf(),
        ensures
            (final(self)@, step@) == old(self)@.modal_keyed(byte, nav, now),
            final(self)@.wf(),
    {
        let ghost start = self@;
        let over = match &self.modal {
            None => true,
            Some(modal) => modal.expired(now),
        };
        if over {
            self.end_modal();
            return ModalStep::Done(None);
        }
        if byte == 25 && self.auth_url.is_some() {
            return ModalStep::CopyLink;
        }
        if byte == 27 {
            if nav == Navigation::Escape {
                self.end_modal();
                return ModalStep::Done(None);
            }
            if let Navigation::EscapeWith(next) = nav {
                self.end_modal();
                self.defer_input(next);
                return ModalStep::Done(None);
            }
        }
        match self.modal.take() {
            None => ModalStep::Done(None),
            Some(mut modal) => {
                if byte == 27 {
                    modal.navigate(nav);
                    self.modal = Some(modal);
                    assert(self@ =~= start.modal_keyed(byte, nav, now).0);
                    return ModalStep::Continue;
                }
                match modal.key(byte, now) {
                    Some(answer) => {
                        self.end_modal();
                        assert(self@ =~= start.modal_closed());
                        ModalStep::Done(Some(answer))
                    },
                    None => {
                        self.modal = Some(modal);
                        assert(self@ =~= start.modal_keyed(byte, nav, now).0);
                        ModalStep::Continue
                    },
                }
            },
        }
    }

    fn empty_draft(&mut self)
        requires
            old(self)@.wf(),
        ensures
            final(self)@ == old(self)@.drafted(Seq::empty()),
            final(self)@.wf(),
    {
        self.input.composer.draft = Vec::new();
        self.input.composer.cursor = 0;
        let ghost want = old(self)@.drafted(Seq::empty());
        assert(self@.input.composer =~= want.input.composer);
        assert(self@.input =~= want.input);
        assert(self@ =~= want);
    }

    /// Ask for an answer that is typed without a dialog.
    pub fn begin_answer(&mut self, secret: bool)
        requires
            old(self)@.wf(),
        ensures
            final(self)@ == old(self)@.answering(secret, true),
            final(self)@.wf(),
    {
        self.empty_draft();
        self.input.secret = secret;
        self.input.suggestions = None;
        assert(self@.input =~= old(self)@.answering(secret, true).input);
        assert(self@ =~= old(self)@.answering(secret, true));
    }

    /// The answer is over; nothing of it is left.
    pub fn end_answer(&mut self)
        requires
            old(self)@.wf(),
        ensures
            final(self)@ == old(self)@.answering(false, false),
            final(self)@.wf(),
    {
        self.empty_draft();
        self.input.secret = false;
        assert(self@.input =~= old(self)@.answering(false, false).input);
        assert(self@ =~= old(self)@.answering(false, false));
    }

    fn redraft(&mut self, text: &str)
        requires
            old(self)@.wf(),
        ensures
            final(self)@ == old(self)@.drafted(text@),
            final(self)@.wf(),
    {
        self.input.composer.replace(text);
        let ghost want = old(self)@.drafted(text@);
        assert(self@.input.composer =~= want.input.composer);
        assert(self@.input =~= want.input);
        assert(self@ =~= want);
    }

    /// A key of an answer that is typed without a dialog. `nav` is what an
    /// escape sequence stands for.
    pub fn answer_key(&mut self, pending: &mut Vec<u8>, byte: u8, nav: Navigation) -> (step:
        AnswerStep)
        requires
            old(self)@.wf(),
        ensures
            (final(self)@, final(pending)@, step@) == old(self)@.answer_keyed(
                old(pending)@,
                byte,
                nav,
            ),
            final(self)@.wf(),
    {
        let ghost start = self@;
        let draft = self.input.composer.text();
        if byte == 13 || byte == 10 {
            return AnswerStep::Done(Some(draft));
        }
        if byte == 25 {
            return AnswerStep::CopyLink;
        }
        if byte == 3 || byte == 4 {
            return AnswerStep::Done(None);
        }
        if byte == 8 || byte == 127 {
            pending.clear();
            assert(pending@ =~= Seq::empty());
            let chars = chars_of(draft.as_str());
            let n: usize = chars.len();
            if n > 0 {
                let shorter = text_of(vstd::slice::slice_subrange(chars.as_slice(), 0, n - 1));
                assert(shorter@ =~= draft@.drop_last());
                self.redraft(shorter.as_str());
            } else {
                self.redraft(draft.as_str());
            }
            return AnswerStep::Continue;
        }
        if byte == 27 {
            if nav == Navigation::Escape {
                return AnswerStep::Done(None);
            }
            if let Navigation::EscapeWith(_) = nav {
                return AnswerStep::Done(None);
            }
            return AnswerStep::Continue;
        }
        if crate::input::is_printable(byte) && draft.as_str().as_bytes().len() < 8192 {
            let text = crate::utf8::push_byte(pending, byte);
            if chars_of(text.as_str()).len() > 0 {
                let longer = cat2(draft.as_str(), text.as_str());
                self.redraft(longer.as_str());
            }
        }
        AnswerStep::Continue
    }
}

/// The answer to a request of an extension: what the dialog gave, or that it
/// was cancelled.
pub fn dialog_answer(answer: Option<Json>) -> (r: Json)
    ensures
        r@ == (match answer {
            Some(answer) => answer@,
            None => crate::dialog::cancelled_tree(),
        }),
{
    match answer {
        Some(answer) => answer,
        None => crate::dialog::cancelled(),
    }
}

// ---------------------------------------------------------------------------
// Laws
// ---------------------------------------------------------------------------

proof fn lemma_typed_keeps(s: ScreenView, bytes: Seq<u8>, n: nat, columns: nat, rows: nat)
    ensures
        s.typed(bytes, n, columns, rows) == s.with_input(s.typed(bytes, n, columns, rows).input),
        s.typed(bytes, n, columns, rows).input.images == s.input.images,
        s.typed(bytes, n, columns, rows).input.restored == s.input.restored,
    decreases n,
{
    if n > 0 {
        lemma_typed_keeps(s, bytes, (n - 1) as nat, columns, rows);
    }
}

/// What is typed while sessions are looked for changes the draft alone: nothing
/// of it is sent, and the conversation, the attachments and the messages that
/// wait stay as they are.
pub proof fn law_typing_during_a_search_is_only_drafted(
    s: ScreenView,
    bytes: Seq<u8>,
    columns: nat,
    rows: nat,
)
    ensures
        ({
            let t = s.typed(bytes, bytes.len(), columns, rows);
            &&& t.transcript == s.transcript
            &&& t.pending == s.pending
            &&& t.input.images == s.input.images
            &&& t.input.restored == s.input.restored
        }),
{
    lemma_typed_keeps(s, bytes, bytes.len(), columns, rows);
}

/// A new session shows nothing of the one before, and keeps the model.
pub proof fn law_new_sessions_are_empty(s: ScreenView)
    ensures
        ({
            let after = s.session_cleared();
            &&& after.transcript.bytes.len() == 0 && after.transcript.timelines.len() == 0
            &&& after.transcript.scroll == 0 && after.goal is None && after.activity is None
            &&& after.input.is_empty() && after.input.restored is None
            &&& after.input.rejected is None && after.input.suggestions is None
            &&& after.input.clipboard_notice == ""@ && !after.input.secret
            &&& after.pending.items.len() == 0 && after.auth_url is None
            &&& after.session == "new chat"@
            &&& after.model == s.model && after.workspace == s.workspace
        }),
{
}

/// Nothing of a typed answer is left once it is over.
pub proof fn law_answers_leave_nothing(s: ScreenView)
    ensures
        s.answering(false, false).input.draft().len() == 0,
        !s.answering(false, false).input.secret,
{
}

/// Work does not touch the draft: what is typed while Pi works is there when
/// it has settled.
pub proof fn law_work_keeps_the_draft(s: ScreenView, now: u64, phase: Seq<char>)
    ensures
        s.work_started(now).input == s.input,
        s.phase_set(phase).input == s.input,
        s.ticked(now).0.input == s.input,
        s.work_stopped().input.composer == s.input.composer,
        s.work_stopped().input.images == s.input.images,
{
}

/// A dialog leaves the draft as it was.
pub proof fn law_dialogs_keep_the_draft(s: ScreenView, m: ModalView, byte: u8, nav: Navigation, now: u64)
    requires
        s.saved_scroll == s.input.composer.scroll,
    ensures
        ({
            let open = ScreenView { modal: Some(m), ..s };
            open.modal_keyed(byte, nav, now).0.input.composer == s.input.composer
        }),
{
    assert(crate::composer::ComposerView {
        scroll: s.saved_scroll as nat,
        ..s.input.composer
    } =~= s.input.composer);
}

/// A screen that was left and entered again draws everything anew.
pub proof fn law_resuming_repaints(s: ScreenView)
    ensures
        s.invalidated().painter.dimensions is None,
        s.invalidated().painter.lines.len() == 0,
{
}

/// A refused submission comes back where nothing else is typed, and can be
/// restored in any case.
pub proof fn law_rejected_messages_are_kept(s: ScreenView, d: DraftView, error: Seq<char>, columns: nat)
    ensures
        s.rejected(d, error, columns).input.rejected == Some((d.text, d.images)),
        s.input.is_empty() ==> s.rejected(d, error, columns).input.draft() == d.text && s.rejected(
            d,
            error,
            columns,
        ).input.images == d.images,
        !s.input.is_empty() ==> s.rejected(d, error, columns).input.draft() == s.input.draft(),
{
}

/// Enter chooses what is selected in a list and closes it, Escape closes it
/// with nothing chosen; the draft stays in both cases.
pub proof fn law_lists_hand_out_the_selection(s: ScreenView, nav: Navigation, rows: nat)
    requires
        s.picker is Some,
    ensures
        s.select_keyed(13, nav, rows).1 == SelectStep::Done(Some(s.picker->0.selected)),
        s.select_keyed(13, nav, rows).0.picker is None,
        s.select_keyed(27, Navigation::Escape, rows).1 == SelectStep::Done(None),
        s.select_keyed(27, Navigation::Escape, rows).0.picker is None,
        s.select_keyed(13, nav, rows).0.input == s.input,
        s.select_keyed(27, Navigation::Escape, rows).0.input == s.input,
{
}

/// The arrows, and `j` and `k`, move the selection of an open list by one.
pub proof fn law_lists_are_moved_by_keys(s: ScreenView, nav: Navigation, rows: nat)
    requires
        s.picker is Some,
        s.picker->0.wf(),
        0 < s.picker->0.selected,
        s.picker->0.selected + 1 < s.picker->0.items.len(),
    ensures
        ({
            let p = s.picker->0;
            let down = s.select_keyed(106, nav, rows).0.picker;
            let up = s.select_keyed(107, nav, rows).0.picker;
            let arrow = s.select_keyed(27, Navigation::Down, rows).0.picker;
            &&& down is Some && down->0.selected == p.selected + 1 && down->0.items == p.items
            &&& up is Some && up->0.selected == p.selected - 1
            &&& arrow is Some && arrow->0.selected == p.selected + 1
        }),
{
}

/// An answer is what was typed, and Backspace takes its last character away.
pub proof fn law_answers_are_what_was_typed(s: ScreenView, pending: Seq<u8>, nav: Navigation)
    ensures
        s.answer_keyed(pending, 13, nav).2 == AnswerStepView::Done(Some(s.input.draft())),
        s.answer_keyed(pending, 27, Navigation::Escape).2 == AnswerStepView::Done(None),
        s.input.draft().len() > 0 ==> s.answer_keyed(pending, 127, nav).0.input.draft()
            == s.input.draft().take(s.input.draft().len() - 1),
        s.answering(true, true).input.secret,
{
    if s.input.draft().len() > 0 {
        assert(s.input.draft().drop_last() =~= s.input.draft().take(s.input.draft().len() - 1));
    }
}

/// A page is as many rows as the conversation shows, and moves towards the
/// beginning or the end; the wheel moves by its own rows.
pub proof fn law_pages_scroll_the_conversation(s: ScreenView, rows: nat, lines: i32, row: usize)
    requires
        12 <= rows <= 10_000,
        s.transcript.scroll <= 1_000_000,
        -100 <= lines <= 100,
    ensures
        s.scrolled(Navigation::ScrollPage(1), rows).transcript.scroll == s.transcript.scroll + rows
            - 10,
        s.transcript.scroll >= rows - 10 ==> s.scrolled(
            Navigation::ScrollPage((-1) as i32),
            rows,
        ).transcript.scroll == s.transcript.scroll - (rows - 10),
        s.transcript.scroll + lines >= 0 ==> s.scrolled(
            Navigation::MouseScroll(lines, row),
            rows,
        ).transcript.scroll == s.transcript.scroll + lines,
        s.scrolled(Navigation::Up, rows).transcript.scroll == s.transcript.scroll,
{
    let step = rows - 10;
    assert(((-1) as i32) * step == -step) by (nonlinear_arith);
    assert((1 as i32) * step == step) by (nonlinear_arith);
}

/// A message that Pi has delivered is shown in the conversation, once: not
/// where it began the turn, as it is there already.
pub proof fn law_delivered_messages_are_shown(s: ScreenView, message: Tree, text: Seq<char>)
    requires
        s.draws(),
        message.at("content"@).text() == Some(text),
    ensures
        s.pending.initial == Some(text) ==> s.delivered(message).1 == false && s.delivered(
            message,
        ).0.transcript == s.transcript,
        s.pending.initial != Some(text) ==> s.delivered(message).1 && s.delivered(
            message,
        ).0.transcript == s.transcript.written(
            encode_utf8("\nyou › "@ + trim_start_of(text, '\n') + ""@ + "\n"@),
        ),
{
}

/// The model in use is named with its provider, and a session by its name or
/// the beginning of its identifier.
pub proof fn law_the_model_is_named(state: Tree, provider: Seq<char>, id: Seq<char>, name: Seq<char>)
    requires
        provider.len() > 0,
        name.len() > 0,
        !has_control(provider),
        !has_control(id),
        !has_control(name),
        state.at("model"@).says("provider"@, provider),
        state.at("model"@).says("id"@, id),
    ensures
        model_of(state) == provider + "/"@ + id,
        state.says("sessionName"@, name) ==> session_of(state) == name,
{
    lemma_clean_text(provider);
    lemma_clean_text(id);
    lemma_clean_text(name);
}

/// A goal is what was reported last, where that makes sense: no more
/// completed than there is, and no more than fifty.
pub proof fn law_goals_are_what_was_reported(
    goal: Option<(usize, usize)>,
    details: Tree,
    completed: u64,
    total: u64,
)
    requires
        details.at("hibiscusGoal"@).get("error"@) is None,
        details.at("hibiscusGoal"@).at("completed"@).natural() == Some(completed),
        details.at("hibiscusGoal"@).at("total"@).natural() == Some(total),
    ensures
        0 < total <= 50 && completed <= total ==> goal_after(goal, details) == Some(
            (completed as usize, total as usize),
        ),
        total == 0 && completed == 0 ==> goal_after(goal, details) is None,
        total > 50 || completed > total ==> goal_after(goal, details) == goal,
{
}

/// Work is shown from when it began, with its phase; once it is over nothing
/// is.
pub proof fn law_work_is_shown(s: ScreenView, now: u64, phase: Seq<char>)
    requires
        s.full,
        phase.len() <= 90,
        !has_control(phase),
    ensures
        s.work_started(now).activity is Some,
        s.work_started(now).activity->0.started == now,
        s.work_started(now).phase_set(phase).activity->0.phase == phase,
        s.work_started(now).phase_set(phase).activity->0.started == now,
        s.work_stopped().activity is None,
        s.work_stopped().pending.items.len() == 0,
{
    lemma_clean_text(phase);
}

/// A screen that can be drawn can be drawn on a larger terminal too, and never
/// on one of less than forty columns or fourteen rows.
pub proof fn law_small_terminals_are_not_drawn_on(
    interactive: bool,
    terminal: bool,
    term: Option<Seq<char>>,
    columns: usize,
    rows: usize,
)
    ensures
        columns < 40 || rows < 14 ==> !can_draw(interactive, terminal, term, columns, rows),
        columns >= 40 && rows >= 14 ==> can_draw(interactive, terminal, term, columns, rows)
            == can_draw(interactive, terminal, term, 40, 14),
        can_draw(true, true, Some("xterm"@), 40, 14),
        !can_draw(false, terminal, term, columns, rows),
        !can_draw(interactive, false, term, columns, rows),
        !can_draw(interactive, terminal, None, columns, rows),
{
    reveal_strlit("xterm");
    reveal_strlit("dumb");
    assert("xterm"@.len() == 5 && "dumb"@.len() == 4);
}

/// While text streams, the screen is drawn as soon as a frame's time has passed
/// and no sooner.
pub proof fn law_frames_have_their_time(s: ScreenView, last: u64, now: u64)
    requires
        last <= now,
    ensures
        s.last_paint == Some(last) ==> (s.frame_due(now) <==> now - last >= 33),
        s.last_paint is None ==> s.frame_due(now),
{
}

/// A submission that comes back is in the draft again, with its images and the
/// insertion point behind it; a draft that is there already stays.
pub proof fn law_submissions_come_back(
    s: ScreenView,
    d: DraftView,
    notice: Seq<char>,
    columns: nat,
)
    ensures
        s.input.is_empty() ==> {
            let input = s.held_back(d, notice, columns).input;
            input.draft() == d.text && input.images == d.images && input.composer.cursor
                == d.text.len()
        },
        !s.input.is_empty() ==> s.held_back(d, notice, columns).input.draft() == s.input.draft()
            && s.held_back(d, notice, columns).input.images == s.input.images,
        s.held_back(d, notice, columns).input.input_notice == Some(notice),
        s.held_back(d, notice, columns).transcript == s.transcript,
{
}

/// The goal of a session is what its last report said: a report that is sound
/// replaces the one before, and anything else leaves it.
pub proof fn law_the_last_report_counts(messages: Seq<Tree>, n: nat, completed: u64, total: u64)
    requires
        n < messages.len(),
    ensures
        ({
            let message = messages[n as int];
            let report = message.at("details"@).at("hibiscusGoal"@);
            let told = message.says("role"@, "toolResult"@) && message.says("toolName"@, "goal"@);
            &&& told && report.get("error"@) is None && report.at("completed"@).natural() == Some(
                completed,
            ) && report.at("total"@).natural() == Some(total) && 0 < total <= 50 && completed
                <= total ==> goal_of(messages, n + 1) == Some((completed as usize, total as usize))
            &&& told && report.get("error"@) is Some ==> goal_of(messages, n + 1) == goal_of(
                messages,
                n,
            )
            &&& !told ==> goal_of(messages, n + 1) == goal_of(messages, n)
        }),
        goal_of(messages, 0) is None,
{
}

/// A dialog stays open until its time is over, on a terminal that is large
/// enough.
pub proof fn law_dialogs_stay_open(s: ScreenView, now: u64, columns: nat, rows: nat)
    requires
        s.modal is Some,
        columns >= 20,
        rows >= 14,
    ensures
        s.modal->0.deadline is None ==> !s.modal_ends(now, columns, rows),
        s.modal->0.deadline matches Some(deadline) ==> (s.modal_ends(now, columns, rows) <==> now
            >= deadline),
{
}

/// Leaving undoes what entering did: the other screen, the reports of the
/// mouse, the hidden cursor and the keys.
pub proof fn law_leaving_undoes_entering(color: bool)
    ensures
        contains(enter_sequence(color), "\x1b[?1049h"@) && contains(
            leave_sequence(color),
            "\x1b[?1049l"@,
        ),
        contains(enter_sequence(color), "\x1b[?25l"@) && contains(
            leave_sequence(color),
            "\x1b[?25h"@,
        ),
{
    reveal_strlit("\x1b[?1049h");
    reveal_strlit("\x1b[?1049l");
    reveal_strlit("\x1b[?25l");
    reveal_strlit("\x1b[?25h");
    reveal_strlit("\x1b[?1049h\x1b[2 q\x1b[>1u");
    reveal_strlit("\x1b[2J\x1b[?1000h\x1b[?1006h\x1b[?25l");
    reveal_strlit("\x1b[?25h\x1b[?1049l\x1b[0 q");
    let enter = enter_sequence(color);
    let leave = leave_sequence(color);
    assert(enter.subrange(0, 8) =~= "\x1b[?1049h"@);
    assert(occurs_at(enter, "\x1b[?1049h"@, 0));
    let a = enter.len() - 6;
    assert(enter.subrange(a, a + 6) =~= "\x1b[?25l"@);
    assert(occurs_at(enter, "\x1b[?25l"@, a));
    let tail = "\x1b[?25h\x1b[?1049l\x1b[0 q"@;
    let b = leave.len() - tail.len();
    assert(leave.subrange(b, b + 6) =~= "\x1b[?25h"@);
    assert(occurs_at(leave, "\x1b[?25h"@, b));
    assert(leave.subrange(b + 6, b + 14) =~= "\x1b[?1049l"@);
    assert(occurs_at(leave, "\x1b[?1049l"@, b + 6));
}

/// What is typed while sessions are looked for is added to the draft, byte by
/// byte, as it is at the prompt; Backspace takes it away again.
pub proof fn law_typing_during_a_search_is_added(
    s: ScreenView,
    bytes: Seq<u8>,
    n: nat,
    columns: nat,
    rows: nat,
)
    requires
        n < bytes.len(),
    ensures
        ({
            let before = s.typed(bytes, n, columns, rows);
            let after = s.typed(bytes, n + 1, columns, rows);
            let byte = bytes[n as int];
            &&& 32 <= byte <= 126 && before.input.active_utf8.len() == 0 ==> after.input.composer
                == before.input.composer.inserted(seq![byte as char], columns)
                && after.input.active_utf8.len() == 0
            &&& byte < 32 && byte != 8 ==> after == before
        }),
        s.typed(bytes, 0, columns, rows) == s,
{
    let before = s.typed(bytes, n, columns, rows);
    let byte = bytes[n as int];
    if 32 <= byte <= 126 && before.input.active_utf8.len() == 0 {
        let none = Seq::<u8>::empty();
        let text = seq![byte as char];
        vstd::utf8::is_ascii_chars_encode_utf8(text);
        assert(encode_utf8(text) =~= seq![byte] + none);
        assert(before.input.active_utf8 =~= none);
        crate::input::law_typing_adds_to_the_draft(
            InputView { active_utf8: none, ..before.input },
            text,
            byte,
            none,
            columns,
        );
    }
}

}
