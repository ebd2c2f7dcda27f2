//! The keys of the composer: what is typed, attached, suggested and sent.
use crate::commands::{self, commands_view, suggestions, Command};
use crate::composer::{scrolled_by, Composer, ComposerView, MAX_ROWS};
use crate::display::{less, minus};
use crate::draft::end_place;
use crate::json::{Json, Tree};
use crate::keys::Navigation;
use crate::lines::{lemma_texts_push, texts};
use crate::modal::{list_key, move_list, picker_view};
use crate::picker::{Picker, PickerView};
use crate::queue::{image_trees, share_images, DraftSubmission, DraftView, QueueMode, SharedImage};
use crate::text::{
    chars_of, copy, find_char, index_of, pad, repeated, starts, starts_text, trim, trim_start,
    trim_text, trimmed_start,
};
use crate::utf8::{law_characters_arrive_whole, push_byte, pushed};
use std::sync::Arc;
use vstd::prelude::*;
use vstd::utf8::{encode_scalar, encode_utf8};

verus! {

/// How many images a message may have.
pub const MAX_IMAGES: usize = 4;

/// How many bytes are taken at once, besides the first.
pub const MAX_BATCH: usize = 127;

pub const READING: &'static str = "Reading clipboard… press Enter when ready";

/// What is being typed, and what belongs to it.
pub struct Input {
    pub composer: Composer,
    pub images: Vec<SharedImage>,
    /// Whether an image is being read.
    pub reading: bool,
    pub clipboard_notice: String,
    pub input_notice: Option<String>,
    /// The beginning of a character that was typed while Pi worked.
    pub active_utf8: Vec<u8>,
    pub suggestions: Option<Picker>,
    pub dismissed: bool,
    /// A key that is handled before any other.
    pub held: Option<u8>,
    /// Whether what is typed is masked.
    pub secret: bool,
    /// A draft to go on with.
    pub restored: Option<(String, Vec<SharedImage>)>,
    /// What Pi turned down.
    pub rejected: Option<(String, Vec<SharedImage>)>,
}

/// What an [`Input`] holds.
#[verifier::ext_equal]
pub struct InputView {
    pub composer: ComposerView,
    pub images: Seq<Tree>,
    pub reading: bool,
    pub clipboard_notice: Seq<char>,
    pub input_notice: Option<Seq<char>>,
    pub active_utf8: Seq<u8>,
    pub suggestions: Option<PickerView>,
    pub dismissed: bool,
    pub held: Option<u8>,
    pub secret: bool,
    pub restored: Option<(Seq<char>, Seq<Tree>)>,
    pub rejected: Option<(Seq<char>, Seq<Tree>)>,
}

/// A draft and its attachments.
pub open spec fn kept_view(kept: Option<(String, Vec<SharedImage>)>) -> Option<
    (Seq<char>, Seq<Tree>),
> {
    match kept {
        Some((text, images)) => Some((text@, image_trees(images@))),
        None => None,
    }
}

impl View for Input {
    type V = InputView;

    open spec fn view(&self) -> InputView {
        InputView {
            composer: self.composer@,
            images: image_trees(self.images@),
            reading: self.reading,
            clipboard_notice: self.clipboard_notice@,
            input_notice: crate::error::text_view(self.input_notice),
            active_utf8: self.active_utf8@,
            suggestions: picker_view(self.suggestions),
            dismissed: self.dismissed,
            held: self.held,
            secret: self.secret,
            restored: kept_view(self.restored),
            rejected: kept_view(self.rejected),
        }
    }
}

/// The bytes of a prompt that make up no character yet, and the next key.
pub struct Prompt {
    pub pending: Vec<u8>,
    pub queued: Option<u8>,
}

/// What a [`Prompt`] holds.
#[verifier::ext_equal]
pub struct PromptView {
    pub pending: Seq<u8>,
    pub queued: Option<u8>,
}

impl View for Prompt {
    type V = PromptView;

    open spec fn view(&self) -> PromptView {
        PromptView { pending: self.pending@, queued: self.queued }
    }
}

/// What is left to do after a key of the composer.
#[derive(Clone, Copy, Debug, PartialEq, Eq, Structural)]
pub enum NavStep {
    Done,
    /// Read an image from the clipboard.
    ReadClipboard,
    /// The key moves the conversation.
    Scroll(Navigation),
}

/// What is left to do after a key at a prompt.
pub enum PromptStep {
    Nav(NavStep),
    /// The key begins a run of text.
    Batch,
    /// The prompt is over.
    Submit(Option<String>),
}

/// What a [`PromptStep`] holds.
pub enum PromptStepView {
    Nav(NavStep),
    Batch,
    Submit(Option<Seq<char>>),
}

impl View for PromptStep {
    type V = PromptStepView;

    open spec fn view(&self) -> PromptStepView {
        match self {
            PromptStep::Nav(step) => PromptStepView::Nav(*step),
            PromptStep::Batch => PromptStepView::Batch,
            PromptStep::Submit(text) => PromptStepView::Submit(crate::error::text_view(*text)),
        }
    }
}

/// What is left to do after a key while Pi works.
pub enum ActiveStep {
    Nav(NavStep),
    /// The key begins a run of text.
    Batch,
    Stop,
    Submit(DraftSubmission),
}

/// What an [`ActiveStep`] holds.
pub enum ActiveStepView {
    Nav(NavStep),
    Batch,
    Stop,
    Submit(DraftView),
}

impl View for ActiveStep {
    type V = ActiveStepView;

    open spec fn view(&self) -> ActiveStepView {
        match self {
            ActiveStep::Nav(step) => ActiveStepView::Nav(*step),
            ActiveStep::Batch => ActiveStepView::Batch,
            ActiveStep::Stop => ActiveStepView::Stop,
            ActiveStep::Submit(submission) => ActiveStepView::Submit(submission@),
        }
    }
}

/// How many suggestions are visible.
pub open spec fn list_rows_of(rows: nat) -> nat {
    if rows < 13 {
        1
    } else if rows > 17 {
        5
    } else {
        (rows - 12) as nat
    }
}

pub fn list_rows(rows: usize) -> (n: usize)
    ensures
        n == list_rows_of(rows as nat),
        1 <= n <= 5,
{
    if rows < 13 {
        1
    } else if rows > 17 {
        5
    } else {
        rows - 12
    }
}

/// The row of a suggestion.
pub open spec fn suggestion_row(command: (Seq<char>, Seq<char>)) -> Seq<char> {
    command.0 + repeated(' ', less(12, command.0.len())) + "  "@ + command.1
}

pub open spec fn suggestion_rows(commands: Seq<(Seq<char>, Seq<char>)>) -> Seq<Seq<char>> {
    Seq::new(commands.len(), |i: int| suggestion_row(commands[i]))
}

pub open spec fn printable(byte: u8) -> bool {
    32 <= byte <= 126 || byte >= 128
}

/// The end of the printable bytes from `i` on, as far as a batch reaches.
pub open spec fn run_end(bytes: Seq<u8>, i: int) -> int
    decreases bytes.len() - i,
{
    if i < 0 || i >= bytes.len() || i >= MAX_BATCH || !printable(bytes[i]) {
        i
    } else {
        run_end(bytes, i + 1)
    }
}

/// The key that ends a batch.
pub open spec fn stopper(bytes: Seq<u8>) -> Option<u8> {
    let end = run_end(bytes, 0);
    if end < MAX_BATCH && end < bytes.len() {
        Some(bytes[end])
    } else {
        None
    }
}

/// The text that bytes make up after `pending`, and what is left.
pub open spec fn pushes(pending: Seq<u8>, bytes: Seq<u8>) -> (Seq<u8>, Seq<char>)
    decreases bytes.len(),
{
    if bytes.len() == 0 {
        (pending, Seq::empty())
    } else {
        let (left, text) = pushes(pending, bytes.drop_last());
        let (after, more) = pushed(left, bytes.last());
        (after, text + more)
    }
}

/// The bytes of a batch.
pub open spec fn batch(first: u8, more: Seq<u8>) -> Seq<u8> {
    seq![first] + more.take(run_end(more, 0))
}

impl InputView {
    pub open spec fn wf(self) -> bool {
        &&& self.composer.wf()
        &&& self.suggestions matches Some(p) ==> p.wf() && p.items.len() > 0
    }

    /// Nothing was typed.
    pub open spec fn fresh() -> InputView {
        InputView {
            composer: ComposerView {
                draft: Seq::empty(),
                cursor: 0,
                preferred_column: None,
                scroll: 0,
            },
            images: Seq::empty(),
            reading: false,
            clipboard_notice: ""@,
            input_notice: None,
            active_utf8: Seq::empty(),
            suggestions: None,
            dismissed: false,
            held: None,
            secret: false,
            restored: None,
            rejected: None,
        }
    }

    pub open spec fn draft(self) -> Seq<char> {
        self.composer.draft
    }

    /// The commands that the draft begins.
    pub open spec fn options(self, working: bool) -> Seq<(Seq<char>, Seq<char>)> {
        if working || index_of(self.draft(), '\n') is Some || self.images.len() > 0 {
            Seq::empty()
        } else {
            suggestions(self.draft())
        }
    }

    /// The suggestions for the draft.
    pub open spec fn refreshed(self, working: bool, rows: nat) -> InputView {
        let options = self.options(working);
        InputView {
            suggestions: if self.dismissed || options.len() == 0 {
                None
            } else {
                Some(
                    PickerView::opened(
                        "Commands"@,
                        suggestion_rows(options),
                        None,
                        list_rows_of(rows),
                    ),
                )
            },
            ..self
        }
    }

    pub open spec fn inserted(self, text: Seq<char>, columns: nat) -> InputView {
        InputView { input_notice: None, composer: self.composer.inserted(text, columns), ..self }
    }

    /// A run of text is typed; the text that is incomplete after it.
    pub open spec fn batched(self, first: u8, more: Seq<u8>, pending: Seq<u8>, columns: nat) -> (
        InputView,
        Seq<u8>,
    ) {
        let (left, text) = pushes(pending, batch(first, more));
        let stopped = InputView {
            held: match stopper(more) {
                Some(byte) => Some(byte),
                None => self.held,
            },
            ..self
        };
        (
            if text.len() > 0 {
                stopped.inserted(text, columns)
            } else {
                stopped
            },
            left,
        )
    }

    /// The insertion point moves.
    pub open spec fn moved(self, key: Navigation, working: bool, columns: nat, rows: nat) -> InputView {
        let after = InputView { composer: self.composer.moved(key, columns), ..self };
        if key == Navigation::Delete || self.suggestions is Some {
            InputView { dismissed: true, ..after }.refreshed(working, rows)
        } else {
            after
        }
    }

    pub open spec fn backspaced(self, working: bool, columns: nat, rows: nat) -> InputView {
        InputView {
            active_utf8: Seq::empty(),
            composer: self.composer.backspaced(columns),
            dismissed: false,
            ..self
        }.refreshed(working, rows)
    }

    pub open spec fn without_images(self) -> InputView {
        InputView { images: Seq::empty(), reading: false, clipboard_notice: ""@, ..self }
    }

    /// An image is asked for.
    pub open spec fn pasted(self) -> (InputView, NavStep) {
        if self.reading {
            (self, NavStep::Done)
        } else if self.images.len() >= MAX_IMAGES {
            (
                InputView { clipboard_notice: "Maximum 4 images · Ctrl+X remove"@, ..self },
                NavStep::Done,
            )
        } else {
            (
                InputView { reading: true, clipboard_notice: "Reading clipboard…"@, ..self },
                NavStep::ReadClipboard,
            )
        }
    }

    /// A read of the clipboard is over.
    pub open spec fn answered(self, result: Result<Tree, Seq<char>>) -> InputView {
        match result {
            Ok(image) => InputView {
                reading: false,
                images: self.images.push(image),
                clipboard_notice: ""@,
                suggestions: None,
                ..self
            },
            Err(message) => InputView { reading: false, clipboard_notice: message, ..self },
        }
    }

    /// The mouse is over the draft.
    pub open spec fn over_draft(self, row: usize, columns: nat, rows: nat) -> bool {
        let total = self.composer.rows(columns);
        let visible = if total < MAX_ROWS {
            total
        } else {
            MAX_ROWS as nat
        };
        &&& self.suggestions is None
        &&& row >= less(rows, visible + 2)
        &&& row <= less(rows, 3)
    }

    /// A key that is about the suggestions or the conversation.
    pub open spec fn listed(self, key: Navigation, rows: nat) -> (InputView, NavStep) {
        match self.suggestions {
            Some(p) => (
                if key == Navigation::Escape {
                    InputView { dismissed: true, suggestions: None, ..self }
                } else {
                    InputView { suggestions: Some(list_key(p, key, list_rows_of(rows))), ..self }
                },
                NavStep::Done,
            ),
            None => (self, NavStep::Scroll(key)),
        }
    }

    /// A navigation key of the composer.
    pub open spec fn navigated(self, key: Navigation, working: bool, columns: nat, rows: nat) -> (
        InputView,
        NavStep,
    ) {
        match key {
            Navigation::PasteImage => self.pasted(),
            Navigation::Newline => (
                self.inserted("\n"@, columns).refreshed(working, rows),
                NavStep::Done,
            ),
            Navigation::Left | Navigation::Right | Navigation::Home | Navigation::End
            | Navigation::Delete => (self.moved(key, working, columns, rows), NavStep::Done),
            Navigation::MouseScroll(lines, row) => if self.over_draft(row, columns, rows) {
                (
                    InputView {
                        composer: ComposerView {
                            scroll: scrolled_by(
                                self.composer.scroll,
                                lines as int,
                                self.composer.rows(columns),
                            ),
                            ..self.composer
                        },
                        ..self
                    },
                    NavStep::Done,
                )
            } else {
                self.listed(Navigation::ScrollLines(lines), rows)
            },
            Navigation::Up | Navigation::Down => if self.suggestions is None {
                (self.moved(key, working, columns, rows), NavStep::Done)
            } else {
                self.listed(key, rows)
            },
            _ => self.listed(key, rows),
        }
    }

    /// The command that is suggested and selected.
    pub open spec fn completion(self) -> Option<Seq<char>> {
        match self.suggestions {
            Some(p) => {
                let options = suggestions(self.draft());
                if p.selected < options.len() {
                    Some(options[p.selected as int].0)
                } else {
                    None
                }
            },
            None => None,
        }
    }

    /// Enter at a prompt.
    pub open spec fn entered(self) -> (InputView, PromptStepView) {
        if self.reading {
            (
                InputView { clipboard_notice: READING@, ..self },
                PromptStepView::Nav(NavStep::Done),
            )
        } else if self.images.len() > 0 && starts(trim_start(self.draft()), "/"@) {
            (
                InputView {
                    clipboard_notice: "Ctrl+X: remove images before running a command"@,
                    ..self
                },
                PromptStepView::Nav(NavStep::Done),
            )
        } else {
            (
                InputView { composer: self.composer.cleared(), suggestions: None, ..self },
                PromptStepView::Submit(
                    Some(
                        match self.completion() {
                            Some(name) => name,
                            None => self.draft(),
                        },
                    ),
                ),
            )
        }
    }

    /// Tab at a prompt.
    pub open spec fn completed(self) -> InputView {
        match self.completion() {
            Some(name) => InputView {
                composer: ComposerView {
                    draft: name,
                    cursor: name.len(),
                    preferred_column: None,
                    ..self.composer
                },
                suggestions: None,
                dismissed: true,
                ..self
            },
            None => self,
        }
    }

    /// Nothing is typed or attached.
    pub open spec fn is_empty(self) -> bool {
        self.draft().len() == 0 && self.images.len() == 0
    }

    /// A key at a prompt. `nav` is what an escape sequence stands for.
    pub open spec fn prompted(
        self,
        p: PromptView,
        byte: u8,
        nav: Navigation,
        working: bool,
        columns: nat,
        rows: nat,
    ) -> (InputView, PromptView, PromptStepView) {
        if byte == 13 {
            let (v, step) = self.entered();
            (v, p, step)
        } else if byte == 24 {
            (
                self.without_images().refreshed(working, rows),
                p,
                PromptStepView::Nav(NavStep::Done),
            )
        } else if (byte == 3 || byte == 4) && self.is_empty() && !self.reading {
            (self, p, PromptStepView::Submit(None))
        } else if byte == 3 {
            (
                InputView {
                    composer: self.composer.cleared(),
                    dismissed: false,
                    ..self.without_images()
                }.refreshed(working, rows),
                PromptView { pending: Seq::empty(), ..p },
                PromptStepView::Nav(NavStep::Done),
            )
        } else if byte == 8 || byte == 127 {
            (
                self.backspaced(working, columns, rows),
                PromptView { pending: Seq::empty(), ..p },
                PromptStepView::Nav(NavStep::Done),
            )
        } else if byte == 9 {
            (self.completed(), p, PromptStepView::Nav(NavStep::Done))
        } else if byte == 27 && nav is EscapeWith {
            let (v, step) = self.navigated(Navigation::Escape, working, columns, rows);
            (v, PromptView { queued: Some(nav->EscapeWith_0), ..p }, PromptStepView::Nav(step))
        } else if byte == 27 && nav == Navigation::FollowUp {
            let (v, step) = self.navigated(Navigation::Escape, working, columns, rows);
            (v, PromptView { queued: Some(13), ..p }, PromptStepView::Nav(step))
        } else if printable(byte) {
            (self, p, PromptStepView::Batch)
        } else {
            match plain_key(byte, nav) {
                Some(key) => {
                    let (v, step) = self.navigated(key, working, columns, rows);
                    (v, p, PromptStepView::Nav(step))
                },
                None => (self, p, PromptStepView::Nav(NavStep::Done)),
            }
        }
    }

    /// The draft is sent while Pi works.
    pub open spec fn sent(self, mode: QueueMode) -> (InputView, ActiveStepView) {
        if self.reading {
            (
                InputView { input_notice: Some(READING@), ..self },
                ActiveStepView::Nav(NavStep::Done),
            )
        } else if starts(trim_start(self.draft()), "/"@) {
            (
                InputView {
                    input_notice: Some(
                        "Commands are available after Pi settles; keep this draft or clear it"@,
                    ),
                    ..self
                },
                ActiveStepView::Nav(NavStep::Done),
            )
        } else if trim(self.draft()).len() > 0 || self.images.len() > 0 {
            (
                InputView {
                    images: Seq::empty(),
                    composer: ComposerView {
                        draft: Seq::empty(),
                        cursor: 0,
                        scroll: 0,
                        ..self.composer
                    },
                    active_utf8: Seq::empty(),
                    input_notice: Some(
                        match mode {
                            QueueMode::Steer => "Sending steering message…"@,
                            QueueMode::FollowUp => "Queueing follow-up…"@,
                        },
                    ),
                    ..self
                },
                ActiveStepView::Submit(
                    DraftView { text: trim(self.draft()), images: self.images, mode },
                ),
            )
        } else {
            (self, ActiveStepView::Nav(NavStep::Done))
        }
    }

    /// A key while Pi works. `nav` is what an escape sequence stands for.
    pub open spec fn acted(
        self,
        byte: u8,
        nav: Navigation,
        working: bool,
        columns: nat,
        rows: nat,
    ) -> (InputView, ActiveStepView) {
        if byte == 13 {
            self.sent(QueueMode::Steer)
        } else if byte == 17 {
            self.sent(QueueMode::FollowUp)
        } else if byte == 24 {
            (self.without_images(), ActiveStepView::Nav(NavStep::Done))
        } else if byte == 3 {
            (
                InputView {
                    composer: self.composer.cleared(),
                    active_utf8: Seq::empty(),
                    ..self.without_images()
                },
                ActiveStepView::Nav(NavStep::Done),
            )
        } else if byte == 8 || byte == 127 {
            (self.backspaced(working, columns, rows), ActiveStepView::Nav(NavStep::Done))
        } else if byte == 27 && nav == Navigation::Escape {
            (self, ActiveStepView::Stop)
        } else if byte == 27 && nav is EscapeWith {
            (InputView { held: Some(nav->EscapeWith_0), ..self }, ActiveStepView::Stop)
        } else if byte == 27 && nav == Navigation::FollowUp {
            self.sent(QueueMode::FollowUp)
        } else if printable(byte) {
            (self, ActiveStepView::Batch)
        } else {
            match plain_key(byte, nav) {
                Some(key) => {
                    let (v, step) = self.navigated(key, working, columns, rows);
                    (v, ActiveStepView::Nav(step))
                },
                None => (self, ActiveStepView::Nav(NavStep::Done)),
            }
        }
    }

    /// A prompt begins: a draft is restored where nothing else is typed.
    pub open spec fn begun(self, working: bool, columns: nat, rows: nat) -> (InputView, PromptView) {
        let restored = match self.restored {
            Some((text, images)) => if self.is_empty() {
                InputView {
                    restored: None,
                    composer: ComposerView { draft: text, cursor: text.len(), ..self.composer },
                    images,
                    ..self
                }
            } else {
                self
            },
            None => self,
        };
        let v = InputView {
            composer: restored.composer.shown(columns),
            dismissed: false,
            ..restored
        }.refreshed(working, rows);
        (
            InputView { active_utf8: Seq::empty(), held: None, ..v },
            PromptView { pending: v.active_utf8, queued: v.held },
        )
    }

    /// Nothing is under way, so that a notice may interrupt the prompt.
    pub open spec fn is_quiet(self, p: PromptView) -> bool {
        self.is_empty() && !self.reading && p.pending.len() == 0 && p.queued is None
    }

    /// The draft comes back, where nothing else is typed.
    pub open spec fn returned(self, d: DraftView, columns: nat) -> InputView {
        if self.is_empty() {
            InputView {
                images: d.images,
                composer: ComposerView {
                    draft: d.text,
                    cursor: d.text.len(),
                    ..self.composer
                }.shown(columns),
                ..self
            }
        } else {
            self
        }
    }
}

/// The navigation of a key that is no text.
pub open spec fn plain_key(byte: u8, nav: Navigation) -> Option<Navigation> {
    if byte == 10 {
        Some(Navigation::Newline)
    } else if byte == 22 {
        Some(Navigation::PasteImage)
    } else if byte == 4 {
        Some(Navigation::Delete)
    } else if byte == 1 {
        Some(Navigation::Home)
    } else if byte == 5 {
        Some(Navigation::End)
    } else if byte == 2 {
        Some(Navigation::Left)
    } else if byte == 6 {
        Some(Navigation::Right)
    } else if byte == 27 {
        Some(nav)
    } else {
        None
    }
}

fn plain(byte: u8, nav: Navigation) -> (r: Option<Navigation>)
    ensures
        r == plain_key(byte, nav),
{
    if byte == 10 {
        Some(Navigation::Newline)
    } else if byte == 22 {
        Some(Navigation::PasteImage)
    } else if byte == 4 {
        Some(Navigation::Delete)
    } else if byte == 1 {
        Some(Navigation::Home)
    } else if byte == 5 {
        Some(Navigation::End)
    } else if byte == 2 {
        Some(Navigation::Left)
    } else if byte == 6 {
        Some(Navigation::Right)
    } else if byte == 27 {
        Some(nav)
    } else {
        None
    }
}

fn suggestion_items(options: &Vec<Command>) -> (out: Vec<String>)
    ensures
        texts(out@) == suggestion_rows(commands_view(options@)),
{
    let ghost all = commands_view(options@);
    let mut out: Vec<String> = Vec::new();
    let mut i: usize = 0;
    assert(texts(out@) =~= suggestion_rows(all).take(0));
    while i < options.len()
        invariant
            i <= options@.len(),
            all == commands_view(options@),
            texts(out@) == suggestion_rows(all).take(i as int),
        decreases options@.len() - i,
    {
        let command = options[i];
        let n: usize = chars_of(command.name).len();
        let mut row = copy(command.name);
        pad(&mut row, ' ', minus(12, n));
        row.append("  ");
        row.append(command.description);
        proof {
            assert(all[i as int] == (command.name@, command.description@));
            assert(row@ == suggestion_row(all[i as int]));
            lemma_texts_push(out@, row);
            assert(suggestion_rows(all).take(i + 1) =~= suggestion_rows(all).take(i as int).push(
                suggestion_row(all[i as int]),
            ));
        }
        out.push(row);
        i = i + 1;
    }
    assert(suggestion_rows(all).take(i as int) =~= suggestion_rows(all));
    out
}

impl Input {
    pub fn new() -> (r: Self)
        ensures
            r@ == InputView::fresh(),
            r@.wf(),
    {
        let r = Input {
            composer: Composer::new(),
            images: Vec::new(),
            reading: false,
            clipboard_notice: copy(""),
            input_notice: None,
            active_utf8: Vec::new(),
            suggestions: None,
            dismissed: false,
            held: None,
            secret: false,
            restored: None,
            rejected: None,
        };
        assert(r@.images =~= Seq::empty());
        assert(r@.active_utf8 =~= Seq::empty());
        r
    }

    fn draft_text(&self) -> (out: String)
        ensures
            out@ == self@.draft(),
    {
        self.composer.text()
    }

    pub fn is_empty(&self) -> (r: bool)
        ensures
            r == self@.is_empty(),
    {
        self.composer.draft.len() == 0 && self.images.len() == 0
    }

    /// Bring the suggestions up to date.
    pub fn refresh_suggestions(&mut self, working: bool, rows: usize)
        requires
            old(self)@.wf(),
        ensures
            final(self)@ == old(self)@.refreshed(working, rows as nat),
            final(self)@.wf(),
    {
        let ghost start = self@;
        let none = working || find_char(self.composer.draft.as_slice(), '\n').is_some()
            || self.images.len() > 0;
        let options: Vec<Command> = if none {
            Vec::new()
        } else {
            let draft = self.draft_text();
            commands::matches(draft.as_str())
        };
        proof {
            assert(commands_view(options@) =~= start.options(working));
        }
        if self.dismissed || options.len() == 0 {
            self.suggestions = None;
        } else {
            let items = suggestion_items(&options);
            assert(texts(items@).len() == options@.len());
            assert(items@.len() == texts(items@).len());
            self.suggestions = Some(Picker::new(copy("Commands"), items, None, list_rows(rows)));
        }
        assert(self@ =~= start.refreshed(working, rows as nat));
    }

    /// Insert a text at the insertion point.
    pub fn insert_draft(&mut self, text: &str, columns: usize)
        requires
            old(self)@.wf(),
        ensures
            final(self)@ == old(self)@.inserted(text@, columns as nat),
            final(self)@.wf(),
    {
        self.input_notice = None;
        self.composer.insert(text, columns);
        assert(self@ =~= old(self)@.inserted(text@, columns as nat));
    }

    /// Insert the run of text that `first` begins. Of the bytes `more` that
    /// have arrived after it, those that are printable are taken, and one
    /// that is not; how many.
    pub fn insert_batch(&mut self, first: u8, more: &[u8], pending: &mut Vec<u8>, columns: usize) -> (taken:
        usize)
        requires
            old(self)@.wf(),
        ensures
            (final(self)@, final(pending)@) == old(self)@.batched(
                first,
                more@,
                old(pending)@,
                columns as nat,
            ),
            final(self)@.wf(),
            taken == run_end(more@, 0) + (if stopper(more@) is Some {
                1int
            } else {
                0
            }),
            taken <= more@.len(),
    {
        let ghost start = self@;
        let ghost before = pending@;
        let mut text = push_byte(pending, first);
        let n: usize = more.len();
        let mut i: usize = 0;
        proof {
            assert(batch(first, more@.take(0)) =~= seq![first]);
            assert(seq![first].drop_last() =~= Seq::empty());
            assert(Seq::<char>::empty() + text@ =~= text@);
            reveal_with_fuel(pushes, 2);
            assert(seq![first] + more@.take(0) =~= seq![first]);
        }
        while i < n && i < MAX_BATCH && is_printable(more[i])
            invariant
                i <= n,
                n == more@.len(),
                i <= MAX_BATCH,
                run_end(more@, 0) == run_end(more@, i as int),
                (pending@, text@) == pushes(before, seq![first] + more@.take(i as int)),
            decreases n - i,
        {
            let next = push_byte(pending, more[i]);
            text.append(next.as_str());
            i = i + 1;
            proof {
                let bytes = seq![first] + more@.take(i as int);
                assert(bytes.drop_last() =~= seq![first] + more@.take(i - 1));
                assert(bytes.last() == more@[i - 1]);
            }
        }
        assert(run_end(more@, 0) == i);
        let mut taken: usize = i;
        if i < MAX_BATCH && i < n {
            self.held = Some(more[i]);
            taken = i + 1;
        }
        if chars_of(text.as_str()).len() > 0 {
            self.insert_draft(text.as_str(), columns);
        }
        assert(self@ =~= start.batched(first, more@, before, columns as nat).0);
        taken
    }

    fn move_draft(&mut self, key: Navigation, working: bool, columns: usize, rows: usize)
        requires
            old(self)@.wf(),
        ensures
            final(self)@ == old(self)@.moved(key, working, columns as nat, rows as nat),
            final(self)@.wf(),
    {
        self.composer.move_draft(key, columns);
        if key == Navigation::Delete || self.suggestions.is_some() {
            self.dismissed = true;
            assert(self@ =~= (InputView {
                dismissed: true,
                composer: old(self)@.composer.moved(key, columns as nat),
                ..old(self)@
            }));
            self.refresh_suggestions(working, rows);
        } else {
            assert(self@ =~= old(self)@.moved(key, working, columns as nat, rows as nat));
        }
    }

    pub(crate) fn backspace(&mut self, working: bool, columns: usize, rows: usize)
        requires
            old(self)@.wf(),
        ensures
            final(self)@ == old(self)@.backspaced(working, columns as nat, rows as nat),
            final(self)@.wf(),
    {
        self.active_utf8.clear();
        self.composer.backspace(columns);
        self.dismissed = false;
        assert(self@ =~= (InputView {
            active_utf8: Seq::empty(),
            composer: old(self)@.composer.backspaced(columns as nat),
            dismissed: false,
            ..old(self)@
        }));
        self.refresh_suggestions(working, rows);
    }

    /// Remove the attachments.
    pub fn clear_images(&mut self)
        ensures
            final(self)@ == old(self)@.without_images(),
            old(self)@.wf() ==> final(self)@.wf(),
    {
        self.images.clear();
        self.reading = false;
        self.clipboard_notice = copy("");
        assert(self@ =~= old(self)@.without_images());
    }

    /// Take the attachments of a message that is sent.
    pub fn take_images(&mut self) -> (out: Vec<SharedImage>)
        ensures
            image_trees(out@) == old(self)@.images,
            final(self)@ == (InputView {
                images: Seq::empty(),
                clipboard_notice: ""@,
                ..old(self)@
            }),
            old(self)@.wf() ==> final(self)@.wf(),
    {
        self.clipboard_notice = copy("");
        let mut out: Vec<SharedImage> = Vec::new();
        std::mem::swap(&mut out, &mut self.images);
        assert(self@ =~= (InputView {
            images: Seq::empty(),
            clipboard_notice: ""@,
            ..old(self)@
        }));
        out
    }

    fn paste_image(&mut self) -> (step: NavStep)
        ensures
            (final(self)@, step) == old(self)@.pasted(),
            old(self)@.wf() ==> final(self)@.wf(),
    {
        if self.reading {
            return NavStep::Done;
        }
        if self.images.len() >= MAX_IMAGES {
            self.clipboard_notice = copy("Maximum 4 images · Ctrl+X remove");
            assert(self@ =~= old(self)@.pasted().0);
            return NavStep::Done;
        }
        self.reading = true;
        self.clipboard_notice = copy("Reading clipboard…");
        assert(self@ =~= old(self)@.pasted().0);
        NavStep::ReadClipboard
    }

    /// A read of the clipboard is over.
    pub fn on_clipboard(&mut self, result: Result<Json, String>)
        ensures
            final(self)@ == old(self)@.answered(
                match result {
                    Ok(image) => Ok::<Tree, Seq<char>>(image@),
                    Err(message) => Err::<Tree, Seq<char>>(message@),
                },
            ),
            old(self)@.wf() ==> final(self)@.wf(),
    {
        self.reading = false;
        let ghost start = old(self)@;
        match result {
            Ok(image) => {
                let ghost tree = image@;
                let ghost before = self.images@;
                self.images.push(Arc::new(image));
                self.clipboard_notice = copy("");
                self.suggestions = None;
                assert(image_trees(self.images@) =~= image_trees(before).push(tree));
                assert(self@ =~= start.answered(Ok::<Tree, Seq<char>>(tree)));
            },
            Err(message) => {
                let ghost text = message@;
                self.clipboard_notice = message;
                assert(self@ =~= start.answered(Err::<Tree, Seq<char>>(text)));
            },
        }
    }

    fn list_key(&mut self, key: Navigation, rows: usize) -> (step: NavStep)
        requires
            old(self)@.wf(),
        ensures
            (final(self)@, step) == old(self)@.listed(key, rows as nat),
            final(self)@.wf(),
    {
        let ghost start = self@;
        match self.suggestions.take() {
            None => {
                assert(self@ =~= start);
                NavStep::Scroll(key)
            },
            Some(mut picker) => {
                if key == Navigation::Escape {
                    self.dismissed = true;
                } else {
                    move_list(&mut picker, key, list_rows(rows));
                    self.suggestions = Some(picker);
                }
                assert(self@ =~= start.listed(key, rows as nat).0);
                NavStep::Done
            },
        }
    }

    fn is_over_draft(&self, row: usize, columns: usize, rows: usize) -> (r: bool)
        requires
            self@.wf(),
        ensures
            r == self@.over_draft(row, columns as nat, rows as nat),
    {
        let (last, _) = end_place(
            self.composer.draft.as_slice(),
            crate::composer::draft_width(columns),
        );
        let visible: usize = if last < MAX_ROWS {
            last + 1
        } else {
            MAX_ROWS
        };
        self.suggestions.is_none() && row >= minus(rows, visible + 2) && row <= minus(rows, 3)
    }

    fn scroll_draft(&mut self, lines: i32, columns: usize)
        requires
            old(self)@.wf(),
        ensures
            final(self)@ == (InputView {
                composer: ComposerView {
                    scroll: scrolled_by(
                        old(self)@.composer.scroll,
                        lines as int,
                        old(self)@.composer.rows(columns as nat),
                    ),
                    ..old(self)@.composer
                },
                ..old(self)@
            }),
            final(self)@.wf(),
    {
        self.composer.scroll_rows(lines, columns);
        assert(self@ =~= (InputView {
            composer: ComposerView {
                scroll: scrolled_by(
                    old(self)@.composer.scroll,
                    lines as int,
                    old(self)@.composer.rows(columns as nat),
                ),
                ..old(self)@.composer
            },
            ..old(self)@
        }));
    }

    /// A navigation key of the composer.
    pub fn navigate(&mut self, key: Navigation, working: bool, columns: usize, rows: usize) -> (step:
        NavStep)
        requires
            old(self)@.wf(),
        ensures
            (final(self)@, step) == old(self)@.navigated(key, working, columns as nat, rows as nat),
            final(self)@.wf(),
    {
        match key {
            Navigation::PasteImage => self.paste_image(),
            Navigation::Newline => {
                self.insert_draft("\n", columns);
                self.refresh_suggestions(working, rows);
                NavStep::Done
            },
            Navigation::Left | Navigation::Right | Navigation::Home | Navigation::End
            | Navigation::Delete => {
                self.move_draft(key, working, columns, rows);
                NavStep::Done
            },
            Navigation::MouseScroll(lines, row) => {
                if self.is_over_draft(row, columns, rows) {
                    self.scroll_draft(lines, columns);
                    NavStep::Done
                } else {
                    self.list_key(Navigation::ScrollLines(lines), rows)
                }
            },
            Navigation::Up | Navigation::Down => {
                if self.suggestions.is_none() {
                    self.move_draft(key, working, columns, rows);
                    NavStep::Done
                } else {
                    self.list_key(key, rows)
                }
            },
            _ => self.list_key(key, rows),
        }
    }

    fn completion(&self) -> (r: Option<String>)
        ensures
            match r {
                Some(name) => self@.completion() == Some(name@),
                None => self@.completion() is None,
            },
    {
        match &self.suggestions {
            None => None,
            Some(picker) => {
                let draft = self.draft_text();
                let options = commands::matches(draft.as_str());
                assert(commands_view(options@).len() == options@.len());
                if picker.selected < options.len() {
                    let command = options[picker.selected];
                    assert(commands_view(options@)[picker.selected as int].0 == command.name@);
                    Some(copy(command.name))
                } else {
                    None
                }
            },
        }
    }

    fn enter(&mut self) -> (step: PromptStep)
        requires
            old(self)@.wf(),
        ensures
            (final(self)@, step@) == old(self)@.entered(),
            final(self)@.wf(),
    {
        let ghost start = self@;
        if self.reading {
            self.clipboard_notice = copy(READING);
            assert(self@ =~= start.entered().0);
            return PromptStep::Nav(NavStep::Done);
        }
        if self.images.len() > 0 && starts_text(
            trimmed_start(self.composer.draft.as_slice()),
            "/",
        ) {
            self.clipboard_notice = copy("Ctrl+X: remove images before running a command");
            assert(self@ =~= start.entered().0);
            return PromptStep::Nav(NavStep::Done);
        }
        let message = match self.completion() {
            Some(name) => name,
            None => self.draft_text(),
        };
        self.composer.clear();
        self.suggestions = None;
        assert(self@ =~= start.entered().0);
        PromptStep::Submit(Some(message))
    }

    fn complete(&mut self)
        requires
            old(self)@.wf(),
        ensures
            final(self)@ == old(self)@.completed(),
            final(self)@.wf(),
    {
        let ghost start = self@;
        if let Some(name) = self.completion() {
            self.composer.replace(name.as_str());
            self.composer.preferred_column = None;
            self.suggestions = None;
            self.dismissed = true;
            assert(self@.composer =~= start.completed().composer);
            assert(self@ =~= start.completed());
        }
    }

    /// A key at a prompt. `nav` is what an escape sequence stands for.
    pub fn prompt_key(
        &mut self,
        prompt: &mut Prompt,
        byte: u8,
        nav: Navigation,
        working: bool,
        columns: usize,
        rows: usize,
    ) -> (step: PromptStep)
        requires
            old(self)@.wf(),
        ensures
            (final(self)@, final(prompt)@, step@) == old(self)@.prompted(
                old(prompt)@,
                byte,
                nav,
                working,
                columns as nat,
                rows as nat,
            ),
            final(self)@.wf(),
    {
        let ghost start = self@;
        let ghost p = prompt@;
        if byte == 13 {
            return self.enter();
        }
        if byte == 24 {
            self.clear_images();
            self.refresh_suggestions(working, rows);
            return PromptStep::Nav(NavStep::Done);
        }
        if (byte == 3 || byte == 4) && self.is_empty() && !self.reading {
            return PromptStep::Submit(None);
        }
        if byte == 3 {
            self.composer.clear();
            self.clear_images();
            prompt.pending.clear();
            self.dismissed = false;
            assert(self@ =~= (InputView {
                composer: start.composer.cleared(),
                dismissed: false,
                ..start.without_images()
            }));
            assert(prompt@ =~= (PromptView { pending: Seq::empty(), ..p }));
            self.refresh_suggestions(working, rows);
            return PromptStep::Nav(NavStep::Done);
        }
        if byte == 8 || byte == 127 {
            prompt.pending.clear();
            assert(prompt@ =~= (PromptView { pending: Seq::empty(), ..p }));
            self.backspace(working, columns, rows);
            return PromptStep::Nav(NavStep::Done);
        }
        if byte == 9 {
            self.complete();
            return PromptStep::Nav(NavStep::Done);
        }
        if byte == 27 {
            if let Navigation::EscapeWith(next) = nav {
                let step = self.navigate(Navigation::Escape, working, columns, rows);
                prompt.queued = Some(next);
                assert(prompt@ =~= (PromptView { queued: Some(next), ..p }));
                return PromptStep::Nav(step);
            }
            if nav == Navigation::FollowUp {
                let step = self.navigate(Navigation::Escape, working, columns, rows);
                prompt.queued = Some(13);
                assert(prompt@ =~= (PromptView { queued: Some(13), ..p }));
                return PromptStep::Nav(step);
            }
        }
        if is_printable(byte) {
            return PromptStep::Batch;
        }
        match plain(byte, nav) {
            Some(key) => {
                let step = self.navigate(key, working, columns, rows);
                PromptStep::Nav(step)
            },
            None => PromptStep::Nav(NavStep::Done),
        }
    }

    fn send(&mut self, mode: QueueMode) -> (step: ActiveStep)
        requires
            old(self)@.wf(),
        ensures
            (final(self)@, step@) == old(self)@.sent(mode),
            final(self)@.wf(),
    {
        let ghost start = self@;
        if self.reading {
            self.input_notice = Some(copy(READING));
            assert(self@ =~= start.sent(mode).0);
            return ActiveStep::Nav(NavStep::Done);
        }
        if starts_text(trimmed_start(self.composer.draft.as_slice()), "/") {
            self.input_notice = Some(
                copy("Commands are available after Pi settles; keep this draft or clear it"),
            );
            assert(self@ =~= start.sent(mode).0);
            return ActiveStep::Nav(NavStep::Done);
        }
        let draft = self.draft_text();
        let text = trim_text(draft.as_str());
        if chars_of(text.as_str()).len() > 0 || self.images.len() > 0 {
            let mut images: Vec<SharedImage> = Vec::new();
            std::mem::swap(&mut images, &mut self.images);
            let submission = DraftSubmission { text, images, mode };
            self.composer.draft = Vec::new();
            self.composer.cursor = 0;
            self.composer.scroll = 0;
            self.active_utf8.clear();
            self.input_notice = Some(
                match mode {
                    QueueMode::Steer => copy("Sending steering message…"),
                    QueueMode::FollowUp => copy("Queueing follow-up…"),
                },
            );
            assert(self@.composer =~= start.sent(mode).0.composer);
            assert(self@ =~= start.sent(mode).0);
            assert(submission@ =~= start.sent(mode).1->Submit_0);
            return ActiveStep::Submit(submission);
        }
        ActiveStep::Nav(NavStep::Done)
    }

    /// A key while Pi works. `nav` is what an escape sequence stands for.
    pub fn active_key(
        &mut self,
        byte: u8,
        nav: Navigation,
        working: bool,
        columns: usize,
        rows: usize,
    ) -> (step: ActiveStep)
        requires
            old(self)@.wf(),
        ensures
            (final(self)@, step@) == old(self)@.acted(
                byte,
                nav,
                working,
                columns as nat,
                rows as nat,
            ),
            final(self)@.wf(),
    {
        let ghost start = self@;
        if byte == 13 {
            return self.send(QueueMode::Steer);
        }
        if byte == 17 {
            return self.send(QueueMode::FollowUp);
        }
        if byte == 24 {
            self.clear_images();
            return ActiveStep::Nav(NavStep::Done);
        }
        if byte == 3 {
            self.composer.clear();
            self.clear_images();
            self.active_utf8.clear();
            assert(self@ =~= start.acted(byte, nav, working, columns as nat, rows as nat).0);
            return ActiveStep::Nav(NavStep::Done);
        }
        if byte == 8 || byte == 127 {
            self.backspace(working, columns, rows);
            return ActiveStep::Nav(NavStep::Done);
        }
        if byte == 27 {
            if nav == Navigation::Escape {
                return ActiveStep::Stop;
            }
            if let Navigation::EscapeWith(next) = nav {
                self.held = Some(next);
                assert(self@ =~= (InputView { held: Some(next), ..start }));
                return ActiveStep::Stop;
            }
            if nav == Navigation::FollowUp {
                return self.send(QueueMode::FollowUp);
            }
        }
        if is_printable(byte) {
            return ActiveStep::Batch;
        }
        match plain(byte, nav) {
            Some(key) => {
                let step = self.navigate(key, working, columns, rows);
                ActiveStep::Nav(step)
            },
            None => ActiveStep::Nav(NavStep::Done),
        }
    }

    /// Begin a prompt.
    pub fn begin(&mut self, working: bool, columns: usize, rows: usize) -> (prompt: Prompt)
        requires
            old(self)@.wf(),
        ensures
            (final(self)@, prompt@) == old(self)@.begun(working, columns as nat, rows as nat),
            final(self)@.wf(),
    {
        let ghost start = self@;
        if self.is_empty() {
            if let Some((text, images)) = self.restored.take() {
                self.composer.replace(text.as_str());
                self.images = images;
            }
        }
        let ghost restored = self@;
        proof {
            assert(restored =~= (match start.restored {
                Some((text, images)) => if start.is_empty() {
                    InputView {
                        restored: None,
                        composer: ComposerView { draft: text, cursor: text.len(), ..start.composer },
                        images,
                        ..start
                    }
                } else {
                    start
                },
                None => start,
            }));
        }
        self.composer.ensure_cursor_visible(columns);
        self.dismissed = false;
        assert(self@ =~= (InputView {
            composer: restored.composer.shown(columns as nat),
            dismissed: false,
            ..restored
        }));
        self.refresh_suggestions(working, rows);
        let ghost v = self@;
        let mut pending: Vec<u8> = Vec::new();
        std::mem::swap(&mut pending, &mut self.active_utf8);
        let queued = self.held.take();
        assert(self@ =~= (InputView { active_utf8: Seq::empty(), held: None, ..v }));
        Prompt { pending, queued }
    }

    /// Whether a notice may interrupt the prompt.
    pub fn is_quiet(&self, prompt: &Prompt) -> (r: bool)
        ensures
            r == self@.is_quiet(prompt@),
    {
        self.is_empty() && !self.reading && prompt.pending.len() == 0 && prompt.queued.is_none()
    }

    /// The key that is handled next, where one waits.
    pub fn next_key(&mut self, prompt: &mut Prompt) -> (r: Option<u8>)
        ensures
            r == (if old(prompt)@.queued is Some {
                old(prompt)@.queued
            } else {
                old(self)@.held
            }),
            final(prompt)@ == (PromptView { queued: None, ..old(prompt)@ }),
            final(self)@ == (if old(prompt)@.queued is Some {
                old(self)@
            } else {
                InputView { held: None, ..old(self)@ }
            }),
            old(self)@.wf() ==> final(self)@.wf(),
    {
        match prompt.queued.take() {
            Some(byte) => Some(byte),
            None => {
                let byte = self.held.take();
                assert(self@ =~= (InputView { held: None, ..old(self)@ }));
                byte
            },
        }
    }

    /// The draft comes back, where nothing else is typed.
    pub fn return_draft(&mut self, submission: &DraftSubmission, columns: usize)
        requires
            old(self)@.wf(),
        ensures
            final(self)@ == old(self)@.returned(submission@, columns as nat),
            final(self)@.wf(),
    {
        if self.is_empty() {
            self.composer.replace(submission.text.as_str());
            self.images = share_images(&submission.images);
            self.composer.ensure_cursor_visible(columns);
            assert(self@ =~= old(self)@.returned(submission@, columns as nat));
        }
    }
}

pub fn is_printable(byte: u8) -> (r: bool)
    ensures
        r == printable(byte),
{
    (32 <= byte && byte <= 126) || byte >= 128
}

// ---------------------------------------------------------------------------
// Laws
// ---------------------------------------------------------------------------

/// Commands are not sent to a running turn, and nothing is while an image is
/// being read: the draft stays.
pub proof fn law_commands_wait_for_the_turn(v: InputView, mode: QueueMode)
    requires
        v.reading || starts(trim_start(v.draft()), "/"@),
    ensures
        v.sent(mode).1 == ActiveStepView::Nav(NavStep::Done),
        v.sent(mode).0.composer == v.composer,
        v.sent(mode).0.images == v.images,
{
}

/// What is sent is the draft and its attachments, once: nothing of it is left.
pub proof fn law_submissions_hold_the_draft(v: InputView, mode: QueueMode)
    requires
        v.sent(mode).1 is Submit,
    ensures
        v.sent(mode).1->Submit_0 == (DraftView { text: trim(v.draft()), images: v.images, mode }),
        v.sent(mode).0.is_empty(),
{
}

/// A restored draft never replaces one that is being typed.
pub proof fn law_restored_drafts_wait(v: InputView, working: bool, columns: nat, rows: nat)
    requires
        !v.is_empty(),
    ensures
        v.begun(working, columns, rows).0.draft() == v.draft(),
        v.begun(working, columns, rows).0.images == v.images,
        v.begun(working, columns, rows).0.restored == v.restored,
{
}

proof fn lemma_run_end(bytes: Seq<u8>, i: int)
    requires
        0 <= i <= bytes.len(),
        i <= MAX_BATCH,
    ensures
        i <= run_end(bytes, i) <= bytes.len(),
        run_end(bytes, i) <= MAX_BATCH,
        forall|k: int| i <= k < run_end(bytes, i) ==> printable(bytes[k]),
    decreases bytes.len() - i,
{
    if i < bytes.len() && i < MAX_BATCH && printable(bytes[i]) {
        lemma_run_end(bytes, i + 1);
    }
}

/// A run of text is bounded and ends before the first key that is no text:
/// that one is handled next.
pub proof fn law_batches_stop_before_control_keys(first: u8, more: Seq<u8>)
    ensures
        batch(first, more).len() <= MAX_BATCH + 1,
        forall|k: int|
            1 <= k < batch(first, more).len() ==> printable(#[trigger] batch(first, more)[k]),
        stopper(more) matches Some(byte) ==> !printable(byte) && byte == more[run_end(more, 0)],
{
    lemma_run_end(more, 0);
    lemma_stop(more, 0);
    assert forall|k: int| 1 <= k < batch(first, more).len() implies printable(
        #[trigger] batch(first, more)[k],
    ) by {
        assert(batch(first, more)[k] == more[k - 1]);
    }
}

proof fn lemma_stop(bytes: Seq<u8>, i: int)
    requires
        0 <= i <= bytes.len(),
        i <= MAX_BATCH,
    ensures
        ({
            let end = run_end(bytes, i);
            end < MAX_BATCH && end < bytes.len() ==> !printable(bytes[end])
        }),
    decreases bytes.len() - i,
{
    if i < bytes.len() && i < MAX_BATCH && printable(bytes[i]) {
        lemma_stop(bytes, i + 1);
    }
}

proof fn lemma_pushes_concat(pending: Seq<u8>, a: Seq<u8>, b: Seq<u8>)
    ensures
        ({
            let (left, text) = pushes(pending, a);
            let (after, more) = pushes(left, b);
            pushes(pending, a + b) == (after, text + more)
        }),
    decreases b.len(),
{
    let (left, text) = pushes(pending, a);
    if b.len() == 0 {
        assert(a + b =~= a);
        assert(text + Seq::<char>::empty() =~= text);
    } else {
        assert((a + b).drop_last() =~= a + b.drop_last());
        lemma_pushes_concat(pending, a, b.drop_last());
        let (mid, more) = pushes(left, b.drop_last());
        let (after, last) = pushed(mid, b.last());
        assert(text + more + last =~= text + (more + last));
    }
}

proof fn lemma_pushes_character(c: char, k: int)
    requires
        0 <= k <= encode_utf8(seq![c]).len(),
    ensures
        ({
            let bytes = encode_utf8(seq![c]);
            pushes(Seq::empty(), bytes.take(k)) == if k < bytes.len() {
                (bytes.take(k), Seq::<char>::empty())
            } else {
                (Seq::<u8>::empty(), seq![c])
            }
        }),
    decreases k,
{
    let bytes = encode_utf8(seq![c]);
    if k == 0 {
        assert(bytes.take(0) =~= Seq::empty());
        assert(bytes.len() > 0) by {
            assert(seq![c].drop_first() =~= Seq::<char>::empty());
        }
    } else {
        lemma_pushes_character(c, k - 1);
        assert(bytes.take(k).drop_last() =~= bytes.take(k - 1));
        law_characters_arrive_whole(c, k - 1);
        assert(Seq::<char>::empty() + seq![c] =~= seq![c]);
    }
}

/// The bytes of a text, as a terminal sends them, are that text.
pub proof fn law_typed_text_arrives(text: Seq<char>)
    ensures
        pushes(Seq::empty(), encode_utf8(text)) == (Seq::<u8>::empty(), text),
    decreases text.len(),
{
    if text.len() > 0 {
        let c = text[0];
        let rest = text.drop_first();
        let bytes = encode_utf8(seq![c]);
        assert(seq![c].drop_first() =~= Seq::<char>::empty());
        assert(encode_utf8(seq![c].drop_first()) =~= Seq::<u8>::empty());
        assert(bytes =~= encode_scalar(c as u32));
        assert(encode_utf8(text) =~= bytes + encode_utf8(rest));
        lemma_pushes_character(c, bytes.len() as int);
        assert(bytes.take(bytes.len() as int) =~= bytes);
        lemma_pushes_concat(Seq::empty(), bytes, encode_utf8(rest));
        law_typed_text_arrives(rest);
        assert(seq![c] + rest =~= text);
    }
}

proof fn lemma_run(bytes: Seq<u8>, i: int)
    requires
        0 <= i <= bytes.len(),
        i <= 128,
    ensures
        i <= run_end(bytes, i) <= bytes.len(),
        run_end(bytes, i) <= 128,
        forall|j: int| i <= j < run_end(bytes, i) ==> printable(#[trigger] bytes[j]),
        run_end(bytes, i) < bytes.len() && run_end(bytes, i) < 127 ==> !printable(
            bytes[run_end(bytes, i)],
        ),
    decreases bytes.len() - i,
{
    if i < bytes.len() && i < MAX_BATCH && printable(bytes[i]) {
        lemma_run(bytes, i + 1);
    }
}

/// All that was typed at once is taken at once, as far as it is text.
pub proof fn law_runs_of_text_are_taken_whole(first: u8, more: Seq<u8>)
    requires
        more.len() < 100,
        forall|i: int| 0 <= i < more.len() ==> printable(#[trigger] more[i]),
    ensures
        batch(first, more) == seq![first] + more,
        stopper(more) is None,
{
    lemma_run(more, 0);
    let end = run_end(more, 0);
    if end < more.len() {
        assert(printable(more[end]));
    }
    assert(more.take(end) =~= more);
}

/// What is typed goes into the draft: the bytes of a text add that text at the
/// insertion point.
pub proof fn law_typing_adds_to_the_draft(
    v: InputView,
    text: Seq<char>,
    first: u8,
    more: Seq<u8>,
    columns: nat,
)
    requires
        more.len() < 100,
        forall|i: int| 0 <= i < more.len() ==> printable(#[trigger] more[i]),
        seq![first] + more == encode_utf8(text),
    ensures
        v.batched(first, more, Seq::empty(), columns).0.composer == v.composer.inserted(
            text,
            columns,
        ),
        v.batched(first, more, Seq::empty(), columns).1.len() == 0,
{
    law_runs_of_text_are_taken_whole(first, more);
    law_typed_text_arrives(text);
    assert(text.len() > 0) by {
        if text.len() == 0 {
            assert(encode_utf8(text).len() == 0);
            assert((seq![first] + more).len() > 0);
        }
    }
}

/// Enter sends the draft as it stands, or the command that is selected, once:
/// the draft is empty after it.
pub proof fn law_enter_sends_the_draft(
    v: InputView,
    p: PromptView,
    nav: Navigation,
    working: bool,
    columns: nat,
    rows: nat,
)
    requires
        !v.reading,
        v.images.len() == 0,
    ensures
        ({
            let (after, _, step) = v.prompted(p, 13, nav, working, columns, rows);
            &&& after.draft().len() == 0
            &&& v.suggestions is None ==> step == PromptStepView::Submit(Some(v.draft()))
            &&& v.suggestions matches Some(list) ==> list.selected < suggestions(v.draft()).len()
                ==> step == PromptStepView::Submit(
                Some(suggestions(v.draft())[list.selected as int].0),
            )
        }),
{
}

/// A draft with attachments is sent too, unless it is a command.
pub proof fn law_attachments_are_sent_with_the_draft(v: InputView)
    requires
        !v.reading,
        v.images.len() > 0,
        v.suggestions is None,
    ensures
        starts(trim_start(v.draft()), "/"@) ==> v.entered().1 == PromptStepView::Nav(NavStep::Done)
            && v.entered().0.composer == v.composer,
        !starts(trim_start(v.draft()), "/"@) ==> v.entered().1 == PromptStepView::Submit(
            Some(v.draft()),
        ) && v.entered().0.images == v.images,
{
}

/// Tab completes the draft to the selected command, and sends nothing.
pub proof fn law_tab_completes(
    v: InputView,
    p: PromptView,
    nav: Navigation,
    working: bool,
    columns: nat,
    rows: nat,
)
    requires
        v.suggestions is Some,
        v.suggestions->0.selected < suggestions(v.draft()).len(),
    ensures
        ({
            let (after, _, step) = v.prompted(p, 9, nav, working, columns, rows);
            &&& step == PromptStepView::Nav(NavStep::Done)
            &&& after.draft() == suggestions(v.draft())[v.suggestions->0.selected as int].0
            &&& after.composer.cursor == after.draft().len()
            &&& after.suggestions is None
        }),
{
}

/// While Pi works, Enter steers and Ctrl+Q follows up, with the draft, the
/// attachments and nothing else; Escape stops.
pub proof fn law_keys_while_pi_works(v: InputView, nav: Navigation, columns: nat, rows: nat)
    requires
        !v.reading,
        !starts(trim_start(v.draft()), "/"@),
        trim(v.draft()).len() > 0,
    ensures
        v.acted(13, nav, true, columns, rows).1 == ActiveStepView::Submit(
            DraftView { text: trim(v.draft()), images: v.images, mode: QueueMode::Steer },
        ),
        v.acted(17, nav, true, columns, rows).1 == ActiveStepView::Submit(
            DraftView { text: trim(v.draft()), images: v.images, mode: QueueMode::FollowUp },
        ),
        v.acted(27, Navigation::FollowUp, true, columns, rows).1 == ActiveStepView::Submit(
            DraftView { text: trim(v.draft()), images: v.images, mode: QueueMode::FollowUp },
        ),
        v.acted(27, Navigation::Escape, true, columns, rows) == (v, ActiveStepView::Stop),
        v.acted(13, nav, true, columns, rows).0.draft().len() == 0,
        v.acted(13, nav, true, columns, rows).0.images.len() == 0,
{
}

/// Ctrl+X removes the attachments and nothing else; Ctrl+C the draft and the
/// attachments; and on an empty prompt Ctrl+C and Ctrl+D leave.
pub proof fn law_control_keys_clear(
    v: InputView,
    p: PromptView,
    nav: Navigation,
    working: bool,
    columns: nat,
    rows: nat,
)
    ensures
        v.prompted(p, 24, nav, working, columns, rows).0.images.len() == 0,
        v.prompted(p, 24, nav, working, columns, rows).0.composer == v.composer,
        !v.is_empty() ==> v.prompted(p, 3, nav, working, columns, rows).0.is_empty(),
        !v.is_empty() ==> v.prompted(p, 3, nav, working, columns, rows).2 == PromptStepView::Nav(
            NavStep::Done,
        ),
        v.is_empty() && !v.reading ==> v.prompted(p, 3, nav, working, columns, rows).2
            == PromptStepView::Submit(None),
        v.is_empty() && !v.reading ==> v.prompted(p, 4, nav, working, columns, rows).2
            == PromptStepView::Submit(None),
{
}

/// The arrows, Home, End and Delete work on the draft as they do in a draft
/// alone, as long as no list is open; so do the keys that stand for them.
pub proof fn law_navigation_works_on_the_draft(
    v: InputView,
    key: Navigation,
    working: bool,
    columns: nat,
    rows: nat,
)
    requires
        v.suggestions is None,
        key == Navigation::Left || key == Navigation::Right || key == Navigation::Home || key
            == Navigation::End || key == Navigation::Up || key == Navigation::Down || key
            == Navigation::Delete,
    ensures
        v.navigated(key, working, columns, rows).0.composer == v.composer.moved(key, columns),
        v.navigated(key, working, columns, rows).1 == NavStep::Done,
        plain_key(27, key) == Some(key),
        plain_key(1, key) == Some(Navigation::Home),
        plain_key(5, key) == Some(Navigation::End),
        plain_key(2, key) == Some(Navigation::Left),
        plain_key(6, key) == Some(Navigation::Right),
        plain_key(4, key) == Some(Navigation::Delete),
        plain_key(10, key) == Some(Navigation::Newline),
{
}

/// Backspace works on the draft, and a new line is added at the insertion
/// point.
pub proof fn law_editing_keys_edit_the_draft(
    v: InputView,
    p: PromptView,
    nav: Navigation,
    working: bool,
    columns: nat,
    rows: nat,
)
    ensures
        v.prompted(p, 127, nav, working, columns, rows).0.composer == v.composer.backspaced(
            columns,
        ),
        v.acted(127, nav, working, columns, rows).0.composer == v.composer.backspaced(columns),
        v.navigated(Navigation::Newline, working, columns, rows).0.composer == v.composer.inserted(
            "\n"@,
            columns,
        ),
{
}

/// An image that was read is attached behind those that are; at most four
/// are. What could not be read is said, and attaches nothing.
pub proof fn law_images_are_attached_in_order(v: InputView, image: Tree, message: Seq<char>)
    ensures
        v.answered(Ok(image)).images == v.images.push(image),
        v.answered(Err(message)).images == v.images,
        v.answered(Err(message)).clipboard_notice == message,
        v.answered(Ok(image)).composer == v.composer,
        v.images.len() >= 4 ==> v.pasted().1 == NavStep::Done && v.pasted().0.images == v.images,
        v.images.len() < 4 && !v.reading ==> v.pasted().1 == NavStep::ReadClipboard
            && v.pasted().0.reading,
{
}

/// A draft that waited comes back into an empty prompt, with its attachments,
/// and once.
pub proof fn law_restored_drafts_come_back(
    v: InputView,
    text: Seq<char>,
    images: Seq<Tree>,
    working: bool,
    columns: nat,
    rows: nat,
)
    requires
        v.is_empty(),
        v.restored == Some((text, images)),
    ensures
        v.begun(working, columns, rows).0.draft() == text,
        v.begun(working, columns, rows).0.images == images,
        v.begun(working, columns, rows).0.restored is None,
{
}

/// The wheel is over the draft exactly where its rows are shown: from the row
/// below the upper border to the one above the lower border.
pub proof fn law_the_wheel_is_over_the_draft(v: InputView, row: usize, columns: nat, rows: nat)
    requires
        v.suggestions is None,
        rows >= 14,
        v.composer.rows(columns) >= 1,
    ensures
        v.composer.rows(columns) <= MAX_ROWS ==> (v.over_draft(row, columns, rows) <==> rows - 2
            - v.composer.rows(columns) <= row <= rows - 3),
        v.composer.rows(columns) > MAX_ROWS ==> (v.over_draft(row, columns, rows) <==> rows - 2
            - MAX_ROWS <= row <= rows - 3),
{
}

}
