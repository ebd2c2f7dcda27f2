//! How the screen is drawn.
use crate::composer::{draft_width, draft_width_of, panel_width, panel_width_of, MAX_ROWS};
use crate::display::{
    clip, clip_of, clip_tail, clip_tail_of, less, minus, paint_background, paint_background_of,
    transcript_viewport, viewport_of,
};
use crate::draft::{draft_lines, draft_rows};
use crate::frame::{
    blanks, bottom_border, bottom_border_of, draft_line, draft_line_of, hint, hint_of, notice,
    notice_of, pending_label, pending_line, top_border, top_border_of, transcript_line,
    transcript_line_of, Focus, Platform, Work, WorkView, ACCENT, FAINT,
};
use crate::input::InputView;
use crate::lines::{lemma_texts_push, texts};
use crate::modal::{
    arranged, modal_rows, picker_panel, picker_panel_of, row_views, Row, RowView,
};
use crate::number::{decimal, decimal_text};
use crate::paint::Cursor;
use crate::screen::{since, Screen, ScreenView};
use crate::text::{cat2, cat3, chars_of, copy, pad, repeated};
use crate::transcript::TranscriptView;
use crate::ui::{style_text, styled};
use vstd::prelude::*;

verus! {

/// What clears the rest of a row.
pub const ERASE: &'static str = "\x1b[K";

/// How many waiting messages are shown.
pub const MAX_WAITING: usize = 3;

/// A view of the screen, and what must be written to show it.
pub struct Painting {
    pub lines: Vec<String>,
    pub cursor: Cursor,
    pub text: Option<String>,
}

// ---------------------------------------------------------------------------
// Measures
// ---------------------------------------------------------------------------

/// The margin of the screen.
pub open spec fn left_of(columns: nat) -> nat {
    less(columns, panel_width_of(columns)) / 2
}

/// The columns of the conversation.
pub open spec fn text_width(columns: nat) -> nat {
    if less(panel_width_of(columns), 3) > 1 {
        less(panel_width_of(columns), 3)
    } else {
        1
    }
}

pub open spec fn smaller(a: nat, b: nat) -> nat {
    if a < b {
        a
    } else {
        b
    }
}

impl ScreenView {
    /// The rows of the draft, or what stands in their place.
    pub open spec fn draft_view(self, columns: nat) -> Seq<Seq<char>> {
        let width = draft_width_of(columns);
        if self.modal is Some {
            seq![clip_of("Respond in the dialog above"@, width)]
        } else if self.input.secret {
            seq![clip_tail_of(repeated('•', self.input.draft().len()), width)]
        } else {
            draft_rows(self.input.draft(), width)
        }
    }

    /// How many rows of the draft are visible.
    pub open spec fn draft_height(self, columns: nat) -> nat {
        smaller(self.draft_view(columns).len(), MAX_ROWS as nat)
    }

    /// How many rows show waiting messages.
    pub open spec fn waiting_height(self) -> nat {
        let n = self.pending.items.len();
        if self.modal is Some {
            0
        } else if n > MAX_WAITING {
            MAX_WAITING as nat + 1
        } else {
            n
        }
    }

    /// How many rows are left for the conversation and what covers it.
    pub open spec fn available(self, columns: nat, rows: nat) -> nat {
        less(rows, 8 + self.draft_height(columns) + self.waiting_height())
    }

    /// What covers the conversation.
    pub open spec fn panel(self, columns: nat, rows: nat) -> Option<Seq<RowView>> {
        let width = panel_width_of(columns);
        let height = self.available(columns, rows);
        if let Some(m) = self.modal {
            Some(modal_rows(m, width))
        } else if let Some(p) = self.picker {
            Some(picker_panel_of(p, width, height, false))
        } else if let Some(p) = self.input.suggestions {
            Some(picker_panel_of(p, width, height, true))
        } else {
            None
        }
    }

    /// Where what covers the conversation begins.
    pub open spec fn top(self, columns: nat, rows: nat) -> nat {
        match self.panel(columns, rows) {
            Some(panel) => less(self.available(columns, rows), panel.len()),
            None => self.available(columns, rows),
        }
    }

    /// The rows of the conversation that are visible.
    pub open spec fn window(self, columns: nat, rows: nat) -> (nat, nat, nat) {
        viewport_of(
            self.transcript.rows.len(),
            self.top(columns, rows),
            self.transcript.scroll as nat,
        )
    }

    /// The rows of the draft that are visible.
    pub open spec fn draft_start(self, columns: nat) -> nat {
        less(self.draft_end(columns), self.draft_height(columns))
    }

    pub open spec fn draft_end(self, columns: nat) -> nat {
        less(self.draft_view(columns).len(), self.input.composer.scroll)
    }

    // -----------------------------------------------------------------------
    // Preparation
    // -----------------------------------------------------------------------

    /// The insertion point is visible on a screen of another size.
    pub open spec fn fitted(self, columns: usize, rows: usize) -> ScreenView {
        if self.painter.dimensions != Some((columns, rows)) && !self.input.secret {
            self.with_input(
                InputView { composer: self.input.composer.shown(columns as nat), ..self.input },
            )
        } else {
            self
        }
    }

    /// The rows of the conversation are up to date, and the draft is scrolled
    /// no further than it goes.
    pub open spec fn measured(self, columns: nat) -> ScreenView {
        let s = ScreenView {
            transcript: self.transcript.laid(text_width(columns) as usize),
            ..self
        };
        s.with_input(
            InputView {
                composer: crate::composer::ComposerView {
                    scroll: smaller(
                        s.input.composer.scroll,
                        less(s.draft_view(columns).len(), s.draft_height(columns)),
                    ),
                    ..s.input.composer
                },
                ..s.input
            },
        )
    }

    /// What covers the conversation fits.
    pub open spec fn covered(self, columns: nat, rows: nat) -> ScreenView {
        let width = panel_width_of(columns);
        let height = self.available(columns, rows);
        if let Some(m) = self.modal {
            ScreenView { modal: Some(arranged(m, width, height)), ..self }
        } else if let Some(p) = self.picker {
            ScreenView { picker: Some(p.moved(0, less(height, 3))), ..self }
        } else if let Some(p) = self.input.suggestions {
            self.with_input(
                InputView { suggestions: Some(p.moved(0, less(height, 3))), ..self.input },
            )
        } else {
            self
        }
    }

    /// The conversation is scrolled no further than it goes.
    pub open spec fn aimed(self, columns: nat, rows: nat) -> ScreenView {
        ScreenView {
            transcript: TranscriptView {
                scroll: self.window(columns, rows).2 as usize,
                ..self.transcript
            },
            ..self
        }
    }

    /// The screen as it is drawn.
    pub open spec fn prepared(self, columns: usize, rows: usize) -> ScreenView {
        self.fitted(columns, rows).measured(columns as nat).covered(
            columns as nat,
            rows as nat,
        ).aimed(columns as nat, rows as nat)
    }

    // -----------------------------------------------------------------------
    // Rows
    // -----------------------------------------------------------------------

    /// A row with its margin.
    pub open spec fn row(self, columns: nat, style: Seq<char>, text: Seq<char>) -> Seq<char> {
        repeated(' ', left_of(columns)) + styled(self.color, style, text) + ERASE@
    }

    pub open spec fn header_rows(self, columns: nat) -> Seq<Seq<char>> {
        let width = panel_width_of(columns);
        seq![
            self.row(
                columns,
                ACCENT@,
                clip_of("✿ hibiscus   /   "@ + self.workspace, width),
            ),
            self.row(columns, FAINT@, clip_of(self.model + "  ·  "@ + self.session, width)),
            ERASE@,
        ]
    }

    /// The row `i` of the conversation and what covers it.
    pub open spec fn body_row(self, columns: nat, rows: nat, i: int) -> Seq<char> {
        let top = self.top(columns, rows);
        let (start, end, _) = self.window(columns, rows);
        let panel = self.panel(columns, rows);
        if panel is Some && top <= i < top + panel->0.len() {
            self.row(columns, panel->0[i - top].style, panel->0[i - top].text)
        } else if start + i < end {
            transcript_line_of(
                self.transcript.rows[start + i],
                panel_width_of(columns),
                columns,
                left_of(columns),
                self.color,
                self.auth_url,
            ) + ERASE@
        } else {
            ERASE@
        }
    }

    pub open spec fn body_rows(self, columns: nat, rows: nat) -> Seq<Seq<char>> {
        Seq::new(self.available(columns, rows), |i: int| self.body_row(columns, rows, i))
    }

    pub open spec fn waiting_rows(self, columns: nat) -> Seq<Seq<char>> {
        let n = self.pending.items.len();
        let shown = Seq::new(
            smaller(n, MAX_WAITING as nat),
            |i: int|
                self.row(
                    columns,
                    "2;38;2;255;183;206"@,
                    pending_label(self.pending.items[i], panel_width_of(columns)),
                ),
        );
        if self.modal is Some {
            Seq::empty()
        } else if n > MAX_WAITING {
            shown.push(
                self.row(columns, FAINT@, "↳ "@ + decimal(less(n, MAX_WAITING as nat)) + " more queued"@),
            )
        } else {
            shown
        }
    }

    pub open spec fn top_row(self, columns: nat, platform: Platform) -> Seq<char> {
        self.row(
            columns,
            "38;2;184;57;101"@,
            top_border_of(
                notice_of(
                    self.input.clipboard_notice,
                    self.input.input_notice,
                    self.input.images.len(),
                    self.working(),
                    self.input.draft().len() > 0,
                    platform.wsl,
                ),
                panel_width_of(columns),
            ),
        )
    }

    pub open spec fn composer_rows(self, columns: nat) -> Seq<Seq<char>> {
        Seq::new(
            self.draft_height(columns),
            |i: int| self.composer_row(columns, self.draft_start(columns) + i),
        )
    }

    /// The row `i` of the draft.
    pub open spec fn composer_row(self, columns: nat, i: int) -> Seq<char> {
        self.row(
            columns,
            "38;2;255;155;187"@,
            draft_line_of(
                self.draft_view(columns)[i],
                i as nat,
                self.draft_start(columns),
                self.draft_end(columns),
                self.draft_view(columns).len(),
                draft_width_of(columns),
            ),
        )
    }

    pub open spec fn work_view(self, now: u64) -> Option<WorkView> {
        match self.activity {
            Some(a) => Some(
                WorkView {
                    flower: a.flower,
                    phase: a.phase,
                    seconds: (since(now, a.started) / 1000) as u64,
                    steering: self.pending.steering,
                    follow_up: self.pending.follow_up,
                    goal: self.goal,
                },
            ),
            None => None,
        }
    }

    pub open spec fn focus(self) -> Focus {
        Focus {
            dialog: self.modal is Some,
            disconnected: self.disconnected,
            suggestions: self.input.suggestions is Some,
            sign_in: self.auth_url is Some,
        }
    }

    pub open spec fn hint_row(self, columns: nat, now: u64, platform: Platform) -> Seq<char> {
        let width = panel_width_of(columns);
        self.row(
            columns,
            if self.working() {
                ACCENT@
            } else {
                FAINT@
            },
            clip_of(
                hint_of(self.focus(), self.work_view(now), self.transcript.scroll, width, platform),
                width,
            ),
        )
    }

    /// Every row, from the first to the last one that is not blank.
    pub open spec fn all_rows(self, columns: nat, rows: nat, now: u64, platform: Platform) -> Seq<
        Seq<char>,
    > {
        self.header_rows(columns) + self.body_rows(columns, rows) + self.waiting_rows(columns)
            + seq![ERASE@, self.top_row(columns, platform)] + self.composer_rows(columns) + seq![
            self.row(columns, "38;2;184;57;101"@, bottom_border_of(panel_width_of(columns))),
            self.hint_row(columns, now, platform),
        ]
    }

    /// A row on its background.
    pub open spec fn on_background(self, row: Seq<char>) -> Seq<char> {
        if self.color {
            paint_background_of("\x1b[0m"@ + row, true)
        } else {
            row
        }
    }

    /// The last row of the terminal: what Pi said on its diagnostic stream.
    pub open spec fn last_row(self, columns: nat) -> Seq<char> {
        if self.warning.len() > 0 {
            self.on_background(
                self.row(columns, FAINT@, clip_of(self.warning, panel_width_of(columns))),
            )
        } else {
            paint_background_of(ERASE@, self.color)
        }
    }

    /// What the terminal shows: as many rows as it has.
    pub open spec fn lines(self, columns: nat, rows: nat, now: u64, platform: Platform) -> Seq<
        Seq<char>,
    > {
        let all = self.all_rows(columns, rows, now, platform);
        Seq::new(
            rows,
            |i: int|
                if i < all.len() {
                    self.on_background(all[i])
                } else if i == rows - 1 {
                    self.last_row(columns)
                } else {
                    paint_background_of(ERASE@, self.color)
                },
        )
    }

    // -----------------------------------------------------------------------
    // The cursor
    // -----------------------------------------------------------------------

    /// The place of the cursor in a dialog.
    pub open spec fn modal_cursor(self, columns: nat, rows: nat) -> Option<(nat, nat)> {
        match self.modal {
            Some(m) => match m.cursor {
                Some((row, column)) => Some(
                    (
                        self.top(columns, rows) + row as nat + 4,
                        left_of(columns) + column as nat + 1,
                    ),
                ),
                None => None,
            },
            None => None,
        }
    }

    /// The row and the column of the insertion point among the rows of the
    /// draft.
    pub open spec fn insertion(self, columns: nat) -> (nat, nat) {
        if self.input.secret {
            (self.draft_start(columns), self.draft_view(columns)[0].len())
        } else {
            self.input.composer.place(columns)
        }
    }

    pub open spec fn cursor_visible(self, columns: nat, rows: nat) -> bool {
        if self.modal is Some {
            self.modal_cursor(columns, rows) is Some
        } else {
            &&& self.picker is None
            &&& self.draft_start(columns) <= self.insertion(columns).0 < self.draft_end(columns)
        }
    }

    pub open spec fn cursor(self, columns: nat, rows: nat) -> Cursor {
        let visible = self.cursor_visible(columns, rows);
        let (line, column) = self.insertion(columns);
        let (row, column) = match self.modal_cursor(columns, rows) {
            Some(place) => place,
            None => (
                if visible {
                    at_least_one(
                        less(
                            rows,
                            (2 + self.draft_height(columns) - (line - self.draft_start(
                                columns,
                            ))) as nat,
                        ),
                    )
                } else {
                    at_least_one(less(rows, 3))
                },
                left_of(columns) + 5 + smaller(column, draft_width_of(columns)),
            ),
        };
        Cursor {
            row: smaller(row, at_least_one(rows)) as usize,
            column: smaller(column, at_least_one(columns)) as usize,
            visible,
        }
    }
}

pub open spec fn at_least_one(n: nat) -> nat {
    if n > 1 {
        n
    } else {
        1
    }
}


// ---------------------------------------------------------------------------
// Drawing
// ---------------------------------------------------------------------------

fn left(columns: usize) -> (n: usize)
    ensures
        n == left_of(columns as nat),
        n <= columns,
{
    minus(columns, panel_width(columns)) / 2
}

fn push_line(out: &mut Vec<String>, line: String)
    ensures
        texts(final(out)@) == texts(old(out)@).push(line@),
{
    proof {
        lemma_texts_push(out@, line);
    }
    out.push(line);
}

fn push_all(out: &mut Vec<String>, more: Vec<String>)
    ensures
        texts(final(out)@) == texts(old(out)@) + texts(more@),
{
    let ghost start = texts(out@);
    let ghost added = texts(more@);
    let mut more = more;
    out.append(&mut more);
    assert(texts(out@) =~= start + added);
}

/// What preparation leaves: the draft is scrolled no further than it goes.
pub open spec fn scrolls_within(s: ScreenView, columns: nat) -> bool {
    s.input.composer.scroll <= less(s.draft_view(columns).len(), s.draft_height(columns))
}

impl Screen {
    fn draft_view(&self, columns: usize) -> (out: Vec<String>)
        ensures
            texts(out@) == self@.draft_view(columns as nat),
            out@.len() >= 1,
    {
        let width: usize = draft_width(columns);
        if self.modal.is_some() {
            let mut out: Vec<String> = Vec::new();
            assert(texts(out@) =~= Seq::empty());
            push_line(&mut out, clip("Respond in the dialog above", width));
            assert(texts(out@) =~= self@.draft_view(columns as nat));
            assert(texts(out@).len() == 1);
            out
        } else if self.input.secret {
            let mut mask = String::new();
            pad(&mut mask, '•', self.input.composer.draft.len());
            assert(mask@ =~= repeated('•', self@.input.draft().len()));
            let mut out: Vec<String> = Vec::new();
            assert(texts(out@) =~= Seq::empty());
            push_line(&mut out, clip_tail(mask.as_str(), width));
            assert(texts(out@) =~= self@.draft_view(columns as nat));
            assert(texts(out@).len() == 1);
            out
        } else {
            let draft = self.input.composer.text();
            draft_lines(draft.as_str(), width)
        }
    }

    fn draft_height(&self, columns: usize) -> (n: usize)
        ensures
            n == self@.draft_height(columns as nat),
            1 <= n <= MAX_ROWS,
    {
        let n: usize = self.draft_view(columns).len();
        if n < MAX_ROWS {
            n
        } else {
            MAX_ROWS
        }
    }

    fn waiting_height(&self) -> (n: usize)
        ensures
            n == self@.waiting_height(),
            n <= 4,
    {
        let n: usize = self.pending.items.len();
        if self.modal.is_some() {
            0
        } else if n > MAX_WAITING {
            MAX_WAITING + 1
        } else {
            n
        }
    }

    fn available(&self, columns: usize, rows: usize) -> (n: usize)
        ensures
            n == self@.available(columns as nat, rows as nat),
            n <= rows,
    {
        minus(rows, 8 + self.draft_height(columns) + self.waiting_height())
    }

    fn fit(&mut self, columns: usize, rows: usize)
        requires
            old(self)@.wf(),
        ensures
            final(self)@ == old(self)@.fitted(columns, rows),
            final(self)@.wf(),
    {
        if self.painter.resized((columns, rows)) && !self.input.secret {
            self.input.composer.ensure_cursor_visible(columns);
            assert(self@.input =~= old(self)@.fitted(columns, rows).input);
            assert(self@ =~= old(self)@.fitted(columns, rows));
        }
    }

    fn measure(&mut self, columns: usize)
        requires
            old(self)@.wf(),
        ensures
            final(self)@ == old(self)@.measured(columns as nat),
            final(self)@.wf(),
            scrolls_within(final(self)@, columns as nat),
    {
        let inner: usize = minus(panel_width(columns), 3);
        let width: usize = if inner > 1 {
            inner
        } else {
            1
        };
        assert(width == text_width(columns as nat));
        self.transcript.lay_out(width);
        let ghost s = ScreenView { transcript: self@.transcript, ..old(self)@ };
        assert(self@ =~= s);
        let total: usize = self.draft_view(columns).len();
        let most: usize = minus(total, self.draft_height(columns));
        if self.input.composer.scroll > most {
            self.input.composer.scroll = most;
        }
        let ghost want = old(self)@.measured(columns as nat);
        assert(self@.input.composer =~= want.input.composer);
        assert(self@.input =~= want.input);
        assert(self@ =~= want);
        assert(self@.draft_view(columns as nat) == s.draft_view(columns as nat));
    }

    fn cover(&mut self, columns: usize, rows: usize) -> (panel: Option<Vec<Row>>)
        requires
            old(self)@.wf(),
        ensures
            final(self)@ == old(self)@.covered(columns as nat, rows as nat),
            final(self)@.wf(),
            match panel {
                Some(panel) => final(self)@.panel(columns as nat, rows as nat) == Some(
                    row_views(panel@),
                ),
                None => final(self)@.panel(columns as nat, rows as nat) is None,
            },
    {
        let ghost start = self@;
        let width: usize = panel_width(columns);
        let height: usize = self.available(columns, rows);
        match self.modal.take() {
            Some(mut modal) => {
                let panel = modal.rows(width, height);
                self.modal = Some(modal);
                assert(self@ =~= start.covered(columns as nat, rows as nat));
                return Some(panel);
            },
            None => {},
        }
        assert(self@ =~= start);
        match self.picker.take() {
            Some(mut picker) => {
                picker.move_by(0, minus(height, 3));
                let panel = picker_panel(&picker, width, height, false);
                self.picker = Some(picker);
                assert(self@ =~= start.covered(columns as nat, rows as nat));
                assert(self@.available(columns as nat, rows as nat) == height);
                return Some(panel);
            },
            None => {},
        }
        assert(self@ =~= start);
        match self.input.suggestions.take() {
            Some(mut picker) => {
                picker.move_by(0, minus(height, 3));
                let panel = picker_panel(&picker, width, height, true);
                self.input.suggestions = Some(picker);
                let ghost want = start.covered(columns as nat, rows as nat);
                assert(self@.input =~= want.input);
                assert(self@ =~= want);
                assert(self@.available(columns as nat, rows as nat) == height);
                Some(panel)
            },
            None => {
                assert(self@.input =~= start.input);
                assert(self@ =~= start);
                None
            },
        }
    }
}


/// The rows of a panel, where there is one.
pub open spec fn panel_view(panel: Option<Vec<Row>>) -> Option<Seq<RowView>> {
    match panel {
        Some(panel) => Some(row_views(panel@)),
        None => None,
    }
}

impl Screen {
    fn top(&self, panel: &Option<Vec<Row>>, columns: usize, rows: usize) -> (n: usize)
        requires
            panel_view(*panel) == self@.panel(columns as nat, rows as nat),
        ensures
            n == self@.top(columns as nat, rows as nat),
            n <= rows,
    {
        let height: usize = self.available(columns, rows);
        match panel {
            Some(panel) => {
                let n: usize = panel.len();
                assert(row_views(panel@).len() == n);
                minus(height, n)
            },
            None => height,
        }
    }

    fn aim(&mut self, panel: &Option<Vec<Row>>, columns: usize, rows: usize)
        requires
            old(self)@.wf(),
            panel_view(*panel) == old(self)@.panel(columns as nat, rows as nat),
        ensures
            final(self)@ == old(self)@.aimed(columns as nat, rows as nat),
            final(self)@.wf(),
    {
        let top: usize = self.top(panel, columns, rows);
        let total: usize = self.transcript.rows.len();
        let view = transcript_viewport(total, top, self.transcript.scroll);
        self.transcript.scroll = view.scroll;
        let ghost want = old(self)@.aimed(columns as nat, rows as nat);
        assert(self@.transcript =~= want.transcript);
        assert(self@ =~= want);
    }

    fn row(&self, columns: usize, style: &str, text: &str) -> (out: String)
        ensures
            out@ == self@.row(columns as nat, style@, text@),
    {
        let margin = blanks(left(columns));
        let line = style_text(self.color, style, text);
        cat3(margin.as_str(), line.as_str(), ERASE)
    }

    fn header_rows(&self, columns: usize) -> (out: Vec<String>)
        ensures
            texts(out@) == self@.header_rows(columns as nat),
    {
        let width: usize = panel_width(columns);
        let title = cat2("✿ hibiscus   /   ", self.workspace.as_str());
        let about = cat3(self.model.as_str(), "  ·  ", self.session.as_str());
        let mut out: Vec<String> = Vec::new();
        assert(texts(out@) =~= Seq::empty());
        push_line(&mut out, self.row(columns, ACCENT, clip(title.as_str(), width).as_str()));
        push_line(&mut out, self.row(columns, FAINT, clip(about.as_str(), width).as_str()));
        push_line(&mut out, copy(ERASE));
        assert(texts(out@) =~= self@.header_rows(columns as nat));
        out
    }

    fn body_row(
        &self,
        panel: &Option<Vec<Row>>,
        columns: usize,
        rows: usize,
        top: usize,
        start: usize,
        end: usize,
        i: usize,
    ) -> (out: String)
        requires
            panel_view(*panel) == self@.panel(columns as nat, rows as nat),
            top == self@.top(columns as nat, rows as nat),
            start == self@.window(columns as nat, rows as nat).0,
            end == self@.window(columns as nat, rows as nat).1,
            end <= self@.transcript.rows.len(),
        ensures
            out@ == self@.body_row(columns as nat, rows as nat, i as int),
    {
        if let Some(panel) = panel {
            assert(row_views(panel@).len() == panel@.len());
            if i >= top && i - top < panel.len() {
                let line = &panel[i - top];
                assert(row_views(panel@)[i - top] == line@);
                return self.row(columns, line.style, line.text.as_str());
            }
        }
        if start < end && i < end - start {
            let row = &self.transcript.rows[start + i];
            assert(self@.transcript.rows[start + i] == row@);
            let url = match &self.auth_url {
                Some(url) => Some(url.as_str()),
                None => None,
            };
            let line = transcript_line(
                row,
                panel_width(columns),
                columns,
                left(columns),
                self.color,
                url,
            );
            return cat2(line.as_str(), ERASE);
        }
        copy(ERASE)
    }

    fn body_rows(&self, panel: &Option<Vec<Row>>, columns: usize, rows: usize) -> (out: Vec<String>)
        requires
            panel_view(*panel) == self@.panel(columns as nat, rows as nat),
        ensures
            texts(out@) == self@.body_rows(columns as nat, rows as nat),
    {
        let ghost want = self@.body_rows(columns as nat, rows as nat);
        let top: usize = self.top(panel, columns, rows);
        let total: usize = self.transcript.rows.len();
        let view = transcript_viewport(total, top, self.transcript.scroll);
        let height: usize = self.available(columns, rows);
        let mut out: Vec<String> = Vec::new();
        let mut i: usize = 0;
        assert(texts(out@) =~= want.take(0));
        while i < height
            invariant
                i <= height,
                height == want.len(),
                want == self@.body_rows(columns as nat, rows as nat),
                panel_view(*panel) == self@.panel(columns as nat, rows as nat),
                top == self@.top(columns as nat, rows as nat),
                view.start == self@.window(columns as nat, rows as nat).0,
                view.end == self@.window(columns as nat, rows as nat).1,
                view.end <= self@.transcript.rows.len(),
                texts(out@) == want.take(i as int),
            decreases height - i,
        {
            let line = self.body_row(panel, columns, rows, top, view.start, view.end, i);
            push_line(&mut out, line);
            i = i + 1;
            assert(want.take(i as int) =~= want.take(i - 1).push(want[i - 1]));
        }
        assert(want.take(i as int) =~= want);
        out
    }

    fn waiting_rows(&self, columns: usize) -> (out: Vec<String>)
        ensures
            texts(out@) == self@.waiting_rows(columns as nat),
    {
        let mut out: Vec<String> = Vec::new();
        assert(texts(out@) =~= Seq::empty());
        if self.modal.is_some() {
            return out;
        }
        let width: usize = panel_width(columns);
        let n: usize = self.pending.items.len();
        let shown: usize = if n < MAX_WAITING {
            n
        } else {
            MAX_WAITING
        };
        let ghost want = Seq::new(
            shown as nat,
            |i: int|
                self@.row(
                    columns as nat,
                    "2;38;2;255;183;206"@,
                    pending_label(self@.pending.items[i], panel_width_of(columns as nat)),
                ),
        );
        let mut i: usize = 0;
        assert(texts(out@) =~= want.take(0));
        while i < shown
            invariant
                i <= shown,
                shown <= n,
                n == self.pending.items@.len(),
                width == panel_width_of(columns as nat),
                want == Seq::new(
                    shown as nat,
                    |i: int|
                        self@.row(
                            columns as nat,
                            "2;38;2;255;183;206"@,
                            pending_label(self@.pending.items[i], panel_width_of(columns as nat)),
                        ),
                ),
                texts(out@) == want.take(i as int),
            decreases shown - i,
        {
            let item = &self.pending.items[i];
            assert(self@.pending.items[i as int] == item@);
            let label = pending_line(item, width);
            push_line(&mut out, self.row(columns, "2;38;2;255;183;206", label.as_str()));
            i = i + 1;
            assert(want.take(i as int) =~= want.take(i - 1).push(want[i - 1]));
        }
        assert(want.take(i as int) =~= want);
        if n > MAX_WAITING {
            let count = decimal_text((n - MAX_WAITING) as u64);
            let label = cat3("↳ ", count.as_str(), " more queued");
            push_line(&mut out, self.row(columns, FAINT, label.as_str()));
        }
        assert(texts(out@) =~= self@.waiting_rows(columns as nat));
        out
    }

    fn top_row(&self, columns: usize, platform: Platform) -> (out: String)
        ensures
            out@ == self@.top_row(columns as nat, platform),
    {
        let input = match &self.input.input_notice {
            Some(text) => Some(text.as_str()),
            None => None,
        };
        let images: usize = self.input.images.len();
        assert(self@.input.images.len() == images);
        let label = notice(
            self.input.clipboard_notice.as_str(),
            input,
            images,
            self.activity.is_some(),
            self.input.composer.draft.len() > 0,
            platform.wsl,
        );
        let border = top_border(label.as_str(), panel_width(columns));
        self.row(columns, "38;2;184;57;101", border.as_str())
    }

    fn composer_rows(&self, columns: usize) -> (out: Vec<String>)
        requires
            scrolls_within(self@, columns as nat),
        ensures
            texts(out@) == self@.composer_rows(columns as nat),
    {
        let ghost want = self@.composer_rows(columns as nat);
        let drafts = self.draft_view(columns);
        let height: usize = self.draft_height(columns);
        let total: usize = drafts.len();
        assert(texts(drafts@).len() == total);
        let end: usize = total - self.input.composer.scroll;
        let start: usize = end - height;
        let width: usize = draft_width(columns);
        let mut out: Vec<String> = Vec::new();
        let mut i: usize = 0;
        assert(texts(out@) =~= want.take(0));
        while i < height
            invariant
                i <= height,
                height == want.len(),
                want == self@.composer_rows(columns as nat),
                texts(drafts@) == self@.draft_view(columns as nat),
                drafts@.len() == total,
                start == self@.draft_start(columns as nat),
                end == self@.draft_end(columns as nat),
                end == start + height,
                end <= total,
                width == draft_width_of(columns as nat),
                texts(out@) == want.take(i as int),
            decreases height - i,
        {
            assert(texts(drafts@)[start + i] == drafts@[start + i]@);
            let line = draft_line(drafts[start + i].as_str(), start + i, start, end, total, width);
            push_line(&mut out, self.row(columns, "38;2;255;155;187", line.as_str()));
            i = i + 1;
            assert(want.take(i as int) =~= want.take(i - 1).push(want[i - 1]));
        }
        assert(want.take(i as int) =~= want);
        out
    }

    fn hint_row(&self, columns: usize, now: u64, platform: Platform) -> (out: String)
        requires
            self@.wf(),
        ensures
            out@ == self@.hint_row(columns as nat, now, platform),
    {
        let width: usize = panel_width(columns);
        let focus = Focus {
            dialog: self.modal.is_some(),
            disconnected: self.disconnected,
            suggestions: self.input.suggestions.is_some(),
            sign_in: self.auth_url.is_some(),
        };
        let work = match &self.activity {
            Some(activity) => Some(
                Work {
                    flower: activity.flower,
                    phase: activity.phase.as_str(),
                    seconds: crate::screen::elapsed(now, activity.started) / 1000,
                    steering: self.pending.steering,
                    follow_up: self.pending.follow_up,
                    goal: self.goal,
                },
            ),
            None => None,
        };
        let text = hint(focus, work, self.transcript.scroll, width, platform);
        let style = if self.activity.is_some() {
            ACCENT
        } else {
            FAINT
        };
        self.row(columns, style, clip(text.as_str(), width).as_str())
    }

    fn all_rows(
        &self,
        panel: &Option<Vec<Row>>,
        columns: usize,
        rows: usize,
        now: u64,
        platform: Platform,
    ) -> (out: Vec<String>)
        requires
            self@.wf(),
            panel_view(*panel) == self@.panel(columns as nat, rows as nat),
            scrolls_within(self@, columns as nat),
        ensures
            texts(out@) == self@.all_rows(columns as nat, rows as nat, now, platform),
    {
        let mut out = self.header_rows(columns);
        push_all(&mut out, self.body_rows(panel, columns, rows));
        push_all(&mut out, self.waiting_rows(columns));
        let ghost first = texts(out@);
        push_line(&mut out, copy(ERASE));
        push_line(&mut out, self.top_row(columns, platform));
        assert(texts(out@) =~= first + seq![ERASE@, self@.top_row(columns as nat, platform)]);
        push_all(&mut out, self.composer_rows(columns));
        let ghost second = texts(out@);
        let border = bottom_border(panel_width(columns));
        push_line(&mut out, self.row(columns, "38;2;184;57;101", border.as_str()));
        push_line(&mut out, self.hint_row(columns, now, platform));
        assert(texts(out@) =~= second + seq![
            self@.row(
                columns as nat,
                "38;2;184;57;101"@,
                bottom_border_of(panel_width_of(columns as nat)),
            ),
            self@.hint_row(columns as nat, now, platform),
        ]);
        out
    }

    fn on_background(&self, row: &str) -> (out: String)
        ensures
            out@ == self@.on_background(row@),
    {
        if self.color {
            paint_background(cat2("\x1b[0m", row).as_str(), true)
        } else {
            copy(row)
        }
    }

    fn last_row(&self, columns: usize) -> (out: String)
        ensures
            out@ == self@.last_row(columns as nat),
    {
        if chars_of(self.warning.as_str()).len() > 0 {
            let text = clip(self.warning.as_str(), panel_width(columns));
            let row = self.row(columns, FAINT, text.as_str());
            self.on_background(row.as_str())
        } else {
            paint_background(ERASE, self.color)
        }
    }

    fn lines(
        &self,
        panel: &Option<Vec<Row>>,
        columns: usize,
        rows: usize,
        now: u64,
        platform: Platform,
    ) -> (out: Vec<String>)
        requires
            self@.wf(),
            panel_view(*panel) == self@.panel(columns as nat, rows as nat),
            scrolls_within(self@, columns as nat),
        ensures
            texts(out@) == self@.lines(columns as nat, rows as nat, now, platform),
    {
        let ghost want = self@.lines(columns as nat, rows as nat, now, platform);
        let all = self.all_rows(panel, columns, rows, now, platform);
        assert(texts(all@).len() == all@.len());
        let mut out: Vec<String> = Vec::new();
        let mut i: usize = 0;
        assert(texts(out@) =~= want.take(0));
        while i < rows
            invariant
                i <= rows,
                rows == want.len(),
                want == self@.lines(columns as nat, rows as nat, now, platform),
                texts(all@) == self@.all_rows(columns as nat, rows as nat, now, platform),
                texts(all@).len() == all@.len(),
                texts(out@) == want.take(i as int),
            decreases rows - i,
        {
            let line = if i < all.len() {
                assert(texts(all@)[i as int] == all@[i as int]@);
                self.on_background(all[i].as_str())
            } else if i == rows - 1 {
                self.last_row(columns)
            } else {
                paint_background(ERASE, self.color)
            };
            push_line(&mut out, line);
            i = i + 1;
            assert(want.take(i as int) =~= want.take(i - 1).push(want[i - 1]));
        }
        assert(want.take(i as int) =~= want);
        out
    }

    fn cursor(&self, panel: &Option<Vec<Row>>, columns: usize, rows: usize) -> (r: Cursor)
        requires
            self@.wf(),
            panel_view(*panel) == self@.panel(columns as nat, rows as nat),
            scrolls_within(self@, columns as nat),
        ensures
            r == self@.cursor(columns as nat, rows as nat),
    {
        let margin: usize = left(columns);
        let most_rows: usize = if rows > 1 {
            rows
        } else {
            1
        };
        let most_columns: usize = if columns > 1 {
            columns
        } else {
            1
        };
        if let Some(modal) = &self.modal {
            if let Some((line, column)) = modal.cursor {
                let top: usize = self.top(panel, columns, rows);
                let row: usize = top.saturating_add(line).saturating_add(4);
                let column: usize = margin.saturating_add(column).saturating_add(1);
                return Cursor {
                    row: if row < most_rows {
                        row
                    } else {
                        most_rows
                    },
                    column: if column < most_columns {
                        column
                    } else {
                        most_columns
                    },
                    visible: true,
                };
            }
        }
        let drafts = self.draft_view(columns);
        assert(texts(drafts@).len() == drafts@.len());
        let height: usize = self.draft_height(columns);
        let end: usize = drafts.len() - self.input.composer.scroll;
        let start: usize = end - height;
        let width: usize = draft_width(columns);
        let (line, place): (usize, usize) = if self.input.secret {
            assert(texts(drafts@)[0] == drafts@[0]@);
            (start, chars_of(drafts[0].as_str()).len())
        } else {
            self.input.composer.cursor_place(columns)
        };
        let visible = self.modal.is_none() && self.picker.is_none() && start <= line && line < end;
        let row: usize = if visible {
            minus(rows, 2 + height - (line - start))
        } else {
            minus(rows, 3)
        };
        let row: usize = if row > 1 {
            row
        } else {
            1
        };
        let offset: usize = if place < width {
            place
        } else {
            width
        };
        let column: usize = margin.saturating_add(5 + offset);
        Cursor {
            row: if row < most_rows {
                row
            } else {
                most_rows
            },
            column: if column < most_columns {
                column
            } else {
                most_columns
            },
            visible,
        }
    }

    /// Draw the screen: its view, and what must be written to show it. Nothing
    /// where it is not drawn.
    pub fn render(&mut self, columns: usize, rows: usize, now: u64, platform: Platform) -> (r: Option<
        Painting,
    >)
        requires
            old(self)@.wf(),
        ensures
            final(self)@.wf(),
            !old(self)@.draws() ==> r is None && final(self)@ == old(self)@,
            old(self)@.draws() ==> final(self)@ == old(self)@.prepared(columns, rows) && (
            r matches Some(p) && texts(p.lines@) == final(self)@.lines(
                columns as nat,
                rows as nat,
                now,
                platform,
            ) && p.cursor == final(self)@.cursor(columns as nat, rows as nat) && match p.text {
                Some(text) => !final(self)@.painter.current(
                    texts(p.lines@),
                    (columns, rows),
                    p.cursor,
                ) && text@ == final(self)@.painter.frame(
                    texts(p.lines@),
                    (columns, rows),
                    p.cursor,
                ),
                None => final(self)@.painter.current(texts(p.lines@), (columns, rows), p.cursor),
            }),
    {
        if !self.draws() {
            return None;
        }
        self.fit(columns, rows);
        self.measure(columns);
        let ghost measured = self@;
        let panel = self.cover(columns, rows);
        let ghost covered = self@;
        assert(covered.draft_view(columns as nat) == measured.draft_view(columns as nat));
        assert(scrolls_within(covered, columns as nat));
        self.aim(&panel, columns, rows);
        assert(self@.draft_view(columns as nat) == covered.draft_view(columns as nat));
        assert(self@.available(columns as nat, rows as nat) == covered.available(
            columns as nat,
            rows as nat,
        ));
        assert(panel_view(panel) == self@.panel(columns as nat, rows as nat));
        let lines = self.lines(&panel, columns, rows, now, platform);
        let cursor = self.cursor(&panel, columns, rows);
        let text = self.painter.frame(&lines, (columns, rows), cursor);
        Some(Painting { lines, cursor, text })
    }

    /// The view was written.
    pub fn painted(&mut self, painting: Painting, columns: usize, rows: usize, now: u64)
        requires
            old(self)@.wf(),
        ensures
            final(self)@ == (ScreenView {
                painter: crate::paint::PainterView {
                    lines: texts(painting.lines@),
                    dimensions: Some((columns, rows)),
                    cursor: Some(painting.cursor),
                    ..old(self)@.painter
                },
                last_paint: Some(now),
                paint_pending: false,
                ..old(self)@
            }),
            final(self)@.wf(),
    {
        let ghost lines = texts(painting.lines@);
        let cursor = painting.cursor;
        self.painter.painted(painting.lines, (columns, rows), cursor);
        self.last_paint = Some(now);
        self.paint_pending = false;
        assert(self@ =~= (ScreenView {
            painter: self@.painter,
            last_paint: Some(now),
            paint_pending: false,
            ..old(self)@
        }));
    }

    /// The view could not be written: what releases the terminal.
    pub fn unpainted(&mut self) -> (release: &'static str)
        requires
            old(self)@.wf(),
        ensures
            final(self)@ == (ScreenView { painter: old(self)@.painter.unknown(), ..old(self)@ }),
            final(self)@.wf(),
            release@ == if old(self)@.painter.synchronized {
                crate::paint::SYNC_END@
            } else {
                ""@
            },
    {
        let release = self.painter.failed();
        assert(self@ =~= (ScreenView { painter: self@.painter, ..old(self)@ }));
        release
    }
}


// ---------------------------------------------------------------------------
// Laws
// ---------------------------------------------------------------------------

/// A frame has as many rows as the terminal.
pub proof fn law_frames_fill_the_terminal(
    s: ScreenView,
    columns: nat,
    rows: nat,
    now: u64,
    platform: Platform,
)
    ensures
        s.lines(columns, rows, now, platform).len() == rows,
{
}

/// Where the terminal is high enough, every row of the screen is on it, and
/// the last row of the terminal is for what Pi says on its diagnostic stream:
/// that never takes the place of anything else.
pub proof fn law_every_row_is_shown(
    s: ScreenView,
    columns: nat,
    rows: nat,
    now: u64,
    platform: Platform,
)
    requires
        rows >= 8 + s.draft_height(columns) + s.waiting_height(),
    ensures
        s.all_rows(columns, rows, now, platform).len() == rows - 1,
        s.lines(columns, rows, now, platform)[rows - 1] == s.last_row(columns),
        forall|i: int|
            0 <= i < rows - 1 ==> #[trigger] s.lines(columns, rows, now, platform)[i]
                == s.on_background(s.all_rows(columns, rows, now, platform)[i]),
{
}

/// The cursor is on the terminal.
pub proof fn law_cursor_is_on_the_terminal(s: ScreenView, columns: usize, rows: usize)
    requires
        columns >= 1,
        rows >= 1,
    ensures
        1 <= s.cursor(columns as nat, rows as nat).row <= rows,
        1 <= s.cursor(columns as nat, rows as nat).column <= columns,
{
}

/// A list takes the cursor away from the draft.
pub proof fn law_lists_hide_the_cursor(s: ScreenView, columns: nat, rows: nat)
    requires
        s.picker is Some,
        s.modal is None,
    ensures
        !s.cursor(columns, rows).visible,
{
}

/// Drawing changes nothing of the draft, the messages that wait or the text of
/// the conversation.
pub proof fn law_drawing_changes_no_text(s: ScreenView, columns: usize, rows: usize)
    ensures
        s.prepared(columns, rows).input.draft() == s.input.draft(),
        s.prepared(columns, rows).input.composer.cursor == s.input.composer.cursor,
        s.prepared(columns, rows).input.images == s.input.images,
        s.prepared(columns, rows).pending == s.pending,
        s.prepared(columns, rows).transcript.bytes == s.transcript.bytes,
        s.prepared(columns, rows).transcript.timelines == s.transcript.timelines,
{
}

/// A masked draft is never drawn: only its length is.
pub proof fn law_masked_drafts_are_not_drawn(s: ScreenView, columns: nat, i: int)
    requires
        s.input.secret,
        s.modal is None,
        0 <= i < s.draft_view(columns)[0].len(),
    ensures
        s.draft_view(columns).len() == 1,
        s.draft_view(columns)[0][i] == '•',
{
}

proof fn lemma_places(s: ScreenView, columns: nat, rows: nat, now: u64, platform: Platform)
    requires
        rows >= 8 + s.draft_height(columns) + s.waiting_height(),
    ensures
        ({
            let lines = s.lines(columns, rows, now, platform);
            let body = s.available(columns, rows) as int;
            let waiting = s.waiting_height() as int;
            let draft = s.draft_height(columns) as int;
            &&& lines.len() == rows
            &&& body + waiting + draft + 8 == rows
            &&& forall|i: int|
                0 <= i < body ==> #[trigger] lines[3 + i] == s.on_background(
                    s.body_row(columns, rows, i),
                )
            &&& forall|i: int|
                0 <= i < waiting ==> #[trigger] lines[3 + body + i] == s.on_background(
                    s.waiting_rows(columns)[i],
                )
            &&& forall|i: int|
                0 <= i < draft ==> #[trigger] lines[5 + body + waiting + i] == s.on_background(
                    s.composer_row(columns, s.draft_start(columns) + i),
                )
            &&& lines[0] == s.on_background(s.header_rows(columns)[0])
            &&& lines[1] == s.on_background(s.header_rows(columns)[1])
            &&& lines[rows - 2] == s.on_background(s.hint_row(columns, now, platform))
            &&& s.waiting_rows(columns).len() == waiting
        }),
{
    let lines = s.lines(columns, rows, now, platform);
    let all = s.all_rows(columns, rows, now, platform);
    let body = s.available(columns, rows) as int;
    let waiting = s.waiting_height() as int;
    let draft = s.draft_height(columns) as int;
    assert(s.waiting_rows(columns).len() == waiting);
    assert forall|i: int| 0 <= i < body implies #[trigger] lines[3 + i] == s.on_background(
        s.body_row(columns, rows, i),
    ) by {
        assert(all[3 + i] == s.body_rows(columns, rows)[i]);
    }
    assert forall|i: int| 0 <= i < waiting implies #[trigger] lines[3 + body + i]
        == s.on_background(s.waiting_rows(columns)[i]) by {
        assert(all[3 + body + i] == s.waiting_rows(columns)[i]);
    }
    assert forall|i: int| 0 <= i < draft implies #[trigger] lines[5 + body + waiting + i]
        == s.on_background(s.composer_row(columns, s.draft_start(columns) + i)) by {
        assert(all[5 + body + waiting + i] == s.composer_rows(columns)[i]);
    }
}

/// The conversation is shown without a gap: the row after the one that a line
/// shows is on the next line, and the last one stands as far above the end as
/// the view is scrolled.
pub proof fn law_the_conversation_is_shown(
    s: ScreenView,
    columns: nat,
    rows: nat,
    now: u64,
    platform: Platform,
    first: nat,
    i: int,
)
    requires
        s.modal is None,
        s.picker is None,
        s.input.suggestions is None,
        rows > 8 + s.draft_height(columns) + s.waiting_height(),
        s.transcript.rows.len() >= s.available(columns, rows) + s.transcript.scroll,
        first == s.transcript.rows.len() - s.transcript.scroll - s.available(columns, rows),
        0 <= i < s.available(columns, rows),
    ensures
        s.lines(columns, rows, now, platform)[3 + i] == s.on_background(
            transcript_line_of(
                s.transcript.rows[first + i],
                panel_width_of(columns),
                columns,
                left_of(columns),
                s.color,
                s.auth_url,
            ) + ERASE@,
        ),
{
    lemma_places(s, columns, rows, now, platform);
}

/// A short conversation is shown from its first row on.
pub proof fn law_short_conversations_are_shown_whole(
    s: ScreenView,
    columns: nat,
    rows: nat,
    now: u64,
    platform: Platform,
    i: int,
)
    requires
        s.modal is None,
        s.picker is None,
        s.input.suggestions is None,
        rows > 8 + s.draft_height(columns) + s.waiting_height(),
        s.transcript.rows.len() <= s.available(columns, rows),
        0 <= i < s.transcript.rows.len(),
    ensures
        s.lines(columns, rows, now, platform)[3 + i] == s.on_background(
            transcript_line_of(
                s.transcript.rows[i],
                panel_width_of(columns),
                columns,
                left_of(columns),
                s.color,
                s.auth_url,
            ) + ERASE@,
        ),
{
    lemma_places(s, columns, rows, now, platform);
}

/// A dialog or a list is shown whole where it fits, directly above the messages
/// that wait.
pub proof fn law_panels_are_shown(
    s: ScreenView,
    columns: nat,
    rows: nat,
    now: u64,
    platform: Platform,
    i: int,
)
    requires
        rows > 8 + s.draft_height(columns) + s.waiting_height(),
        s.panel(columns, rows) is Some,
        s.panel(columns, rows)->0.len() <= s.available(columns, rows),
        0 <= i < s.panel(columns, rows)->0.len(),
    ensures
        ({
            let panel = s.panel(columns, rows)->0;
            let at = 3 + s.available(columns, rows) - panel.len() + i;
            s.lines(columns, rows, now, platform)[at] == s.on_background(
                repeated(' ', left_of(columns)) + styled(s.color, panel[i].style, panel[i].text)
                    + ERASE@,
            )
        }),
{
    lemma_places(s, columns, rows, now, platform);
    let panel = s.panel(columns, rows)->0;
    let k = s.available(columns, rows) - panel.len() + i;
    assert(s.lines(columns, rows, now, platform)[3 + k] == s.on_background(
        s.body_row(columns, rows, k),
    ));
}

/// The first three waiting messages are shown one below the other, and the rest
/// is counted.
pub proof fn law_waiting_messages_are_shown(
    s: ScreenView,
    columns: nat,
    rows: nat,
    now: u64,
    platform: Platform,
    i: int,
)
    requires
        s.modal is None,
        rows >= 8 + s.draft_height(columns) + s.waiting_height(),
    ensures
        ({
            let n = s.pending.items.len();
            let lines = s.lines(columns, rows, now, platform);
            let at = 3 + s.available(columns, rows) + i;
            &&& 0 <= i < n && i < 3 ==> lines[at] == s.on_background(
                repeated(' ', left_of(columns)) + styled(
                    s.color,
                    "2;38;2;255;183;206"@,
                    pending_label(s.pending.items[i], panel_width_of(columns)),
                ) + ERASE@,
            )
            &&& n > 3 && i == 3 ==> lines[at] == s.on_background(
                repeated(' ', left_of(columns)) + styled(
                    s.color,
                    FAINT@,
                    "↳ "@ + decimal((n - 3) as nat) + " more queued"@,
                ) + ERASE@,
            )
        }),
{
    lemma_places(s, columns, rows, now, platform);
    let n = s.pending.items.len();
    let body = s.available(columns, rows) as int;
    if 0 <= i < s.waiting_height() {
        assert(s.lines(columns, rows, now, platform)[3 + body + i] == s.on_background(
            s.waiting_rows(columns)[i],
        ));
    }
}

/// The rows of the draft are shown one below the other, as many as fit: all of
/// them where they fit, and else those up to where it is scrolled.
pub proof fn law_the_draft_is_shown(
    s: ScreenView,
    columns: nat,
    rows: nat,
    now: u64,
    platform: Platform,
    i: int,
)
    requires
        s.modal is None,
        rows >= 8 + s.draft_height(columns) + s.waiting_height(),
        s.draft_view(columns).len() >= s.draft_height(columns) + s.input.composer.scroll,
        0 <= i < s.draft_height(columns),
    ensures
        ({
            let all = s.draft_view(columns);
            let first = (all.len() - s.input.composer.scroll - s.draft_height(columns)) as nat;
            let end = (all.len() - s.input.composer.scroll) as nat;
            let at = rows - 3 - s.draft_height(columns) + i;
            &&& s.draft_height(columns) == if all.len() < MAX_ROWS {
                all.len()
            } else {
                MAX_ROWS as nat
            }
            &&& s.lines(columns, rows, now, platform)[at] == s.on_background(
                repeated(' ', left_of(columns)) + styled(
                    s.color,
                    "38;2;255;155;187"@,
                    draft_line_of(
                        all[first + i],
                        (first + i) as nat,
                        first,
                        end,
                        all.len(),
                        draft_width_of(columns),
                    ),
                ) + ERASE@,
            )
        }),
{
    lemma_places(s, columns, rows, now, platform);
    let body = s.available(columns, rows) as int;
    let waiting = s.waiting_height() as int;
    assert(s.lines(columns, rows, now, platform)[5 + body + waiting + i] == s.on_background(
        s.composer_row(columns, s.draft_start(columns) + i),
    ));
}

/// The cursor stands on the line that shows the row of the draft where it is,
/// behind as many characters as stand before it.
pub proof fn law_the_cursor_stands_in_the_draft(
    s: ScreenView,
    columns: nat,
    rows: nat,
    now: u64,
    platform: Platform,
)
    requires
        s.modal is None,
        !s.input.secret,
        rows >= 8 + s.draft_height(columns) + s.waiting_height(),
        rows <= usize::MAX,
        columns <= usize::MAX,
        s.draft_view(columns).len() >= s.draft_height(columns) + s.input.composer.scroll,
        s.cursor(columns, rows).visible,
    ensures
        ({
            let (line, column) = s.input.composer.place(columns);
            let cursor = s.cursor(columns, rows);
            &&& s.lines(columns, rows, now, platform)[cursor.row - 1] == s.on_background(
                s.composer_row(columns, line as int),
            )
            &&& column <= draft_width_of(columns) && left_of(columns) + 5 + column <= columns
                ==> cursor.column == left_of(columns) + 5 + column
        }),
{
    lemma_places(s, columns, rows, now, platform);
    let (line, column) = s.input.composer.place(columns);
    let body = s.available(columns, rows) as int;
    let waiting = s.waiting_height() as int;
    let i = line - s.draft_start(columns);
    assert(s.lines(columns, rows, now, platform)[5 + body + waiting + i] == s.on_background(
        s.composer_row(columns, s.draft_start(columns) + i),
    ));
    assert(s.cursor(columns, rows).row - 1 == 5 + body + waiting + i);
}

/// The first two lines name the workspace, the model and the session.
pub proof fn law_the_header_names_the_session(
    s: ScreenView,
    columns: nat,
    rows: nat,
    now: u64,
    platform: Platform,
)
    requires
        rows >= 8 + s.draft_height(columns) + s.waiting_height(),
        s.workspace.len() + 17 <= panel_width_of(columns),
        s.model.len() + s.session.len() + 5 <= panel_width_of(columns),
    ensures
        s.lines(columns, rows, now, platform)[0] == s.on_background(
            repeated(' ', left_of(columns)) + styled(
                s.color,
                ACCENT@,
                "✿ hibiscus   /   "@ + s.workspace,
            ) + ERASE@,
        ),
        s.lines(columns, rows, now, platform)[1] == s.on_background(
            repeated(' ', left_of(columns)) + styled(
                s.color,
                FAINT@,
                s.model + "  ·  "@ + s.session,
            ) + ERASE@,
        ),
{
    reveal_strlit("✿ hibiscus   /   ");
    reveal_strlit("  ·  ");
    lemma_places(s, columns, rows, now, platform);
}

/// A warning is on the last line.
pub proof fn law_warnings_are_shown(
    s: ScreenView,
    columns: nat,
    rows: nat,
    now: u64,
    platform: Platform,
)
    requires
        rows >= 8 + s.draft_height(columns) + s.waiting_height(),
        0 < s.warning.len() <= panel_width_of(columns),
    ensures
        s.lines(columns, rows, now, platform)[rows - 1] == s.on_background(
            repeated(' ', left_of(columns)) + styled(s.color, FAINT@, s.warning) + ERASE@,
        ),
{
    law_every_row_is_shown(s, columns, rows, now, platform);
}

/// Drawing keeps the view where it is as long as there is something above, and
/// lays the conversation out for the width of the terminal.
pub proof fn law_drawing_keeps_the_view(s: ScreenView, columns: usize, rows: usize)
    ensures
        ({
            let after = s.prepared(columns, rows);
            let total = after.transcript.rows.len();
            let top = after.top(columns as nat, rows as nat);
            let scroll = s.fitted(columns, rows).measured(columns as nat).transcript.scroll;
            &&& top > 0 && scroll + top <= total ==> after.transcript.scroll == scroll
            &&& top > 0 && total <= top ==> after.transcript.scroll == 0
        }),
{
    let drawn = s.fitted(columns, rows).measured(columns as nat).covered(
        columns as nat,
        rows as nat,
    );
    assert(drawn.transcript == s.fitted(columns, rows).measured(columns as nat).transcript);
    assert(drawn.draft_view(columns as nat) == s.prepared(columns, rows).draft_view(
        columns as nat,
    ));
    assert(drawn.top(columns as nat, rows as nat) == s.prepared(columns, rows).top(
        columns as nat,
        rows as nat,
    ));
}

}
