//! The draft that is being typed, and its insertion point.
use crate::draft::{end_place, index_on_row, place, place_on_row};
use crate::keys::Navigation;
use crate::text::{chars_of, extend, slice_copy, text_of};
use vstd::prelude::*;
use vstd::slice::slice_subrange;

verus! {

/// How many rows of a draft are visible at most.
pub const MAX_ROWS: usize = 5;

/// The draft. The insertion point is counted in characters.
pub struct Composer {
    pub draft: Vec<char>,
    pub cursor: usize,
    /// The column that vertical movement aims at.
    pub preferred_column: Option<usize>,
    /// How many rows below the visible ones.
    pub scroll: usize,
}

/// What a [`Composer`] holds.
#[verifier::ext_equal]
pub struct ComposerView {
    pub draft: Seq<char>,
    pub cursor: nat,
    pub preferred_column: Option<usize>,
    pub scroll: nat,
}

impl View for Composer {
    type V = ComposerView;

    open spec fn view(&self) -> ComposerView {
        ComposerView {
            draft: self.draft@,
            cursor: self.cursor as nat,
            preferred_column: self.preferred_column,
            scroll: self.scroll as nat,
        }
    }
}

/// The columns of the panel that holds the draft.
pub open spec fn panel_width_of(columns: nat) -> nat {
    if columns < 5 {
        1
    } else {
        (columns - 4) as nat
    }
}

pub fn panel_width(columns: usize) -> (n: usize)
    ensures
        n == panel_width_of(columns as nat),
        1 <= n,
{
    if columns < 5 {
        1
    } else {
        columns - 4
    }
}

/// The columns of the draft itself.
pub open spec fn draft_width_of(columns: nat) -> nat {
    if panel_width_of(columns) > 6 {
        (panel_width_of(columns) - 5) as nat
    } else {
        1
    }
}

pub fn draft_width(columns: usize) -> (n: usize)
    ensures
        n == draft_width_of(columns as nat),
        1 <= n,
{
    let width: usize = panel_width(columns);
    if width > 6 {
        width - 5
    } else {
        1
    }
}

/// How far `total` rows are scrolled once the row `row` is visible.
pub open spec fn scroll_for(total: nat, row: nat, scroll: nat) -> nat {
    let visible = if total < MAX_ROWS {
        total
    } else {
        MAX_ROWS as nat
    };
    let most = (total - visible) as nat;
    let end = total - (if scroll < most {
        scroll
    } else {
        most
    });
    let start = end - visible;
    let moved = if row < start {
        (total - visible - row) as nat
    } else if row >= end {
        (total - row - 1) as nat
    } else {
        scroll
    };
    if moved < most {
        moved
    } else {
        most
    }
}

/// The scroll position once the row `row` is visible; `last` is the last row.
fn scroll_to(last: usize, row: usize, scroll: usize) -> (r: usize)
    requires
        row <= last,
    ensures
        r == scroll_for(last as nat + 1, row as nat, scroll as nat),
{
    let visible: usize = if last < MAX_ROWS {
        last + 1
    } else {
        MAX_ROWS
    };
    let most: usize = last - (visible - 1);
    let below: usize = if scroll < most {
        scroll
    } else {
        most
    };
    let moved: usize = if row < most - below {
        most - row
    } else if row > last - below {
        last - row
    } else {
        scroll
    };
    if moved < most {
        moved
    } else {
        most
    }
}

/// The place after the last line break of a text.
pub open spec fn line_start(text: Seq<char>) -> nat
    decreases text.len(),
{
    if text.len() == 0 || text.last() == '\n' {
        text.len()
    } else {
        line_start(text.drop_last())
    }
}

/// The place of the first line break at or after `i`.
pub open spec fn line_end(text: Seq<char>, i: int) -> int
    decreases text.len() - i,
{
    if i < 0 || i >= text.len() {
        text.len() as int
    } else if text[i] == '\n' {
        i
    } else {
        line_end(text, i + 1)
    }
}

impl ComposerView {
    pub open spec fn wf(self) -> bool {
        self.cursor <= self.draft.len()
    }

    /// The row and the column of the insertion point.
    pub open spec fn place(self, columns: nat) -> (nat, nat) {
        place(self.draft.take(self.cursor as int), draft_width_of(columns))
    }

    /// How many rows the draft has.
    pub open spec fn rows(self, columns: nat) -> nat {
        place(self.draft, draft_width_of(columns)).0 + 1
    }

    /// The insertion point is visible.
    pub open spec fn shown(self, columns: nat) -> ComposerView {
        ComposerView {
            scroll: scroll_for(self.rows(columns), self.place(columns).0, self.scroll),
            ..self
        }
    }

    pub open spec fn inserted(self, text: Seq<char>, columns: nat) -> ComposerView {
        ComposerView {
            draft: self.draft.take(self.cursor as int) + text + self.draft.skip(self.cursor as int),
            cursor: self.cursor + text.len(),
            preferred_column: None,
            ..self
        }.shown(columns)
    }

    pub open spec fn cleared(self) -> ComposerView {
        ComposerView { draft: Seq::empty(), cursor: 0, preferred_column: None, ..self }
    }

    /// The draft without the character at `i`.
    pub open spec fn without(self, i: int) -> Seq<char> {
        self.draft.take(i) + self.draft.skip(i + 1)
    }

    /// The insertion point moved up or down, towards the preferred column.
    pub open spec fn moved_vertically(self, up: bool, columns: nat) -> ComposerView {
        let (row, col) = self.place(columns);
        if up && row == 0 {
            self
        } else {
            let target = if up {
                (row - 1) as nat
            } else {
                row + 1
            };
            let column = match self.preferred_column {
                Some(column) => column as nat,
                None => col,
            };
            ComposerView {
                preferred_column: Some(column as usize),
                cursor: match index_on_row(self.draft, draft_width_of(columns), target, column) {
                    Some(i) => i,
                    None => self.cursor,
                },
                ..self
            }
        }
    }

    /// What a key does to the draft and its insertion point.
    pub open spec fn moved(self, key: Navigation, columns: nat) -> ComposerView {
        let after = match key {
            Navigation::Left => if self.cursor > 0 {
                ComposerView { cursor: (self.cursor - 1) as nat, ..self }
            } else {
                self
            },
            Navigation::Right => if self.cursor < self.draft.len() {
                ComposerView { cursor: self.cursor + 1, ..self }
            } else {
                self
            },
            Navigation::Home => ComposerView {
                cursor: line_start(self.draft.take(self.cursor as int)),
                ..self
            },
            Navigation::End => ComposerView {
                cursor: line_end(self.draft, self.cursor as int) as nat,
                ..self
            },
            Navigation::Delete => if self.cursor < self.draft.len() {
                ComposerView { draft: self.without(self.cursor as int), ..self }
            } else {
                self
            },
            Navigation::Up => self.moved_vertically(true, columns),
            Navigation::Down => self.moved_vertically(false, columns),
            _ => self,
        };
        (if key == Navigation::Up || key == Navigation::Down {
            after
        } else {
            ComposerView { preferred_column: None, ..after }
        }).shown(columns)
    }

    /// The character before the insertion point is removed.
    pub open spec fn backspaced(self, columns: nat) -> ComposerView {
        (if self.cursor > 0 {
            ComposerView {
                draft: self.without(self.cursor - 1),
                cursor: (self.cursor - 1) as nat,
                preferred_column: None,
                ..self
            }
        } else {
            ComposerView { preferred_column: None, ..self }
        }).shown(columns)
    }
}

proof fn lemma_place_prefix(text: Seq<char>, width: nat, i: int)
    requires
        width >= 1,
        0 <= i <= text.len(),
    ensures
        place(text.take(i), width).0 <= place(text, width).0,
    decreases text.len(),
{
    if i < text.len() {
        assert(text.drop_last().take(i) =~= text.take(i));
        lemma_place_prefix(text.drop_last(), width, i);
    } else {
        assert(text.take(i) =~= text);
    }
}

/// A draft has no more rows than characters, and one.
proof fn lemma_no_row_beyond(text: Seq<char>, width: nat, row: nat, column: nat, n: nat)
    requires
        width >= 1,
        n <= text.len(),
        row > text.len(),
    ensures
        crate::draft::index_upto(text, width, row, column, n) is None,
    decreases n,
{
    crate::draft::lemma_place_bounds(text.take(n as int), width);
    if n > 0 {
        lemma_no_row_beyond(text, width, row, column, (n - 1) as nat);
    }
}

impl Composer {
    pub fn new() -> (r: Self)
        ensures
            r@ == (ComposerView {
                draft: Seq::empty(),
                cursor: 0,
                preferred_column: None,
                scroll: 0,
            }),
            r@.wf(),
    {
        let r = Composer { draft: Vec::new(), cursor: 0, preferred_column: None, scroll: 0 };
        assert(r@.draft =~= Seq::empty());
        r
    }

    /// The draft as a text.
    pub fn text(&self) -> (out: String)
        ensures
            out@ == self@.draft,
    {
        text_of(self.draft.as_slice())
    }

    /// The row and the column of the insertion point.
    pub fn cursor_place(&self, columns: usize) -> (r: (usize, usize))
        requires
            self@.wf(),
        ensures
            (r.0 as nat, r.1 as nat) == self@.place(columns as nat),
    {
        let head = slice_subrange(self.draft.as_slice(), 0, self.cursor);
        assert(head@ =~= self.draft@.take(self.cursor as int));
        end_place(head, draft_width(columns))
    }

    /// Scroll the draft until its insertion point is visible.
    pub fn ensure_cursor_visible(&mut self, columns: usize)
        requires
            old(self)@.wf(),
        ensures
            final(self)@ == old(self)@.shown(columns as nat),
            final(self)@.wf(),
    {
        let (last, _) = end_place(self.draft.as_slice(), draft_width(columns));
        let (row, _) = self.cursor_place(columns);
        proof {
            lemma_place_prefix(
                self.draft@,
                draft_width_of(columns as nat),
                self.cursor as int,
            );
        }
        self.scroll = scroll_to(last, row, self.scroll);
        assert(self@ =~= old(self)@.shown(columns as nat));
    }

    /// Insert a text at the insertion point.
    pub fn insert(&mut self, text: &str, columns: usize)
        requires
            old(self)@.wf(),
        ensures
            final(self)@ == old(self)@.inserted(text@, columns as nat),
            final(self)@.wf(),
    {
        let more = chars_of(text);
        let n: usize = self.draft.len();
        let head = slice_subrange(self.draft.as_slice(), 0, self.cursor);
        let tail = slice_subrange(self.draft.as_slice(), self.cursor, n);
        let mut all = slice_copy(head);
        extend(&mut all, more.as_slice());
        extend(&mut all, tail);
        assert(all@ =~= self.draft@.take(self.cursor as int) + text@ + self.draft@.skip(
            self.cursor as int,
        ));
        let total: usize = all.len();
        assert(self.cursor + more@.len() <= total);
        self.draft = all;
        self.cursor = self.cursor + more.len();
        self.preferred_column = None;
        self.ensure_cursor_visible(columns);
    }

    /// Replace the draft; the insertion point stands at its end.
    pub fn replace(&mut self, text: &str)
        ensures
            final(self)@ == (ComposerView {
                draft: text@,
                cursor: text@.len(),
                ..old(self)@
            }),
            final(self)@.wf(),
    {
        self.draft = chars_of(text);
        self.cursor = self.draft.len();
        assert(self@ =~= (ComposerView { draft: text@, cursor: text@.len(), ..old(self)@ }));
    }

    /// Empty the draft.
    pub fn clear(&mut self)
        ensures
            final(self)@ == old(self)@.cleared(),
            final(self)@.wf(),
    {
        self.draft = Vec::new();
        self.cursor = 0;
        self.preferred_column = None;
        assert(self@ =~= old(self)@.cleared());
    }

    fn remove(&mut self, i: usize)
        requires
            i < old(self)@.draft.len(),
        ensures
            final(self)@ == (ComposerView { draft: old(self)@.without(i as int), ..old(self)@ }),
    {
        let _ = self.draft.remove(i);
        assert(self@.draft =~= old(self)@.without(i as int));
        assert(self@ =~= (ComposerView { draft: old(self)@.without(i as int), ..old(self)@ }));
    }

    fn start_of_line(&self) -> (n: usize)
        requires
            self@.wf(),
        ensures
            n == line_start(self@.draft.take(self.cursor as int)),
            n <= self.cursor,
    {
        let ghost head = self.draft@.take(self.cursor as int);
        let mut n: usize = self.cursor;
        assert(head.take(n as int) =~= head);
        while n > 0 && self.draft[n - 1] != '\n'
            invariant
                n <= self.cursor <= self.draft@.len(),
                head == self.draft@.take(self.cursor as int),
                line_start(head) == line_start(head.take(n as int)),
            decreases n,
        {
            assert(head.take(n as int).drop_last() =~= head.take(n - 1));
            assert(head.take(n as int).last() == self.draft@[n - 1]);
            n = n - 1;
        }
        if n > 0 {
            assert(head.take(n as int).last() == self.draft@[n - 1]);
        }
        n
    }

    fn end_of_line(&self) -> (n: usize)
        requires
            self@.wf(),
        ensures
            n == line_end(self@.draft, self.cursor as int),
            n <= self@.draft.len(),
    {
        let mut n: usize = self.cursor;
        while n < self.draft.len() && self.draft[n] != '\n'
            invariant
                n <= self.draft@.len(),
                line_end(self.draft@, self.cursor as int) == line_end(self.draft@, n as int),
            decreases self.draft@.len() - n,
        {
            n = n + 1;
        }
        n
    }

    fn move_vertically(&mut self, up: bool, columns: usize)
        requires
            old(self)@.wf(),
        ensures
            final(self)@ == old(self)@.moved_vertically(up, columns as nat),
            final(self)@.wf(),
    {
        let head = slice_subrange(self.draft.as_slice(), 0, self.cursor);
        assert(head@ =~= self.draft@.take(self.cursor as int));
        let (row, col) = end_place(head, draft_width(columns));
        if up && row == 0 {
            return;
        }
        let column: usize = match self.preferred_column {
            Some(column) => column,
            None => col,
        };
        self.preferred_column = Some(column);
        if !up && row == usize::MAX {
            let n: usize = self.draft.len();
            proof {
                lemma_no_row_beyond(
                    self.draft@,
                    draft_width_of(columns as nat),
                    row as nat + 1,
                    column as nat,
                    n as nat,
                );
            }
            assert(self@ =~= old(self)@.moved_vertically(up, columns as nat));
            return;
        }
        let target: usize = if up {
            row - 1
        } else {
            row + 1
        };
        if let Some(i) = place_on_row(
            self.draft.as_slice(),
            draft_width(columns),
            target,
            column,
        ) {
            self.cursor = i;
        }
        assert(self@ =~= old(self)@.moved_vertically(up, columns as nat));
    }

    /// What a key does to the draft and its insertion point.
    pub fn move_draft(&mut self, key: Navigation, columns: usize)
        requires
            old(self)@.wf(),
        ensures
            final(self)@ == old(self)@.moved(key, columns as nat),
            final(self)@.wf(),
            final(self)@.draft.len() <= old(self)@.draft.len(),
    {
        let ghost start = self@;
        match key {
            Navigation::Left => {
                if self.cursor > 0 {
                    self.cursor = self.cursor - 1;
                }
            },
            Navigation::Right => {
                if self.cursor < self.draft.len() {
                    self.cursor = self.cursor + 1;
                }
            },
            Navigation::Home => {
                self.cursor = self.start_of_line();
            },
            Navigation::End => {
                self.cursor = self.end_of_line();
            },
            Navigation::Delete => {
                if self.cursor < self.draft.len() {
                    self.remove(self.cursor);
                }
            },
            Navigation::Up => self.move_vertically(true, columns),
            Navigation::Down => self.move_vertically(false, columns),
            _ => {},
        }
        if key != Navigation::Up && key != Navigation::Down {
            self.preferred_column = None;
        }
        let ghost after = (match key {
            Navigation::Left => if start.cursor > 0 {
                ComposerView { cursor: (start.cursor - 1) as nat, ..start }
            } else {
                start
            },
            Navigation::Right => if start.cursor < start.draft.len() {
                ComposerView { cursor: start.cursor + 1, ..start }
            } else {
                start
            },
            Navigation::Home => ComposerView {
                cursor: line_start(start.draft.take(start.cursor as int)),
                ..start
            },
            Navigation::End => ComposerView {
                cursor: line_end(start.draft, start.cursor as int) as nat,
                ..start
            },
            Navigation::Delete => if start.cursor < start.draft.len() {
                ComposerView { draft: start.without(start.cursor as int), ..start }
            } else {
                start
            },
            Navigation::Up => start.moved_vertically(true, columns as nat),
            Navigation::Down => start.moved_vertically(false, columns as nat),
            _ => start,
        });
        assert(self@ =~= (if key == Navigation::Up || key == Navigation::Down {
            after
        } else {
            ComposerView { preferred_column: None, ..after }
        }));
        self.ensure_cursor_visible(columns);
    }

    /// Remove the character before the insertion point.
    pub fn backspace(&mut self, columns: usize)
        requires
            old(self)@.wf(),
        ensures
            final(self)@ == old(self)@.backspaced(columns as nat),
            final(self)@.wf(),
    {
        let ghost start = self@;
        if self.cursor > 0 {
            self.remove(self.cursor - 1);
            self.cursor = self.cursor - 1;
        }
        self.preferred_column = None;
        assert(self@ =~= (if start.cursor > 0 {
            ComposerView {
                draft: start.without(start.cursor - 1),
                cursor: (start.cursor - 1) as nat,
                preferred_column: None,
                ..start
            }
        } else {
            ComposerView { preferred_column: None, ..start }
        }));
        self.ensure_cursor_visible(columns);
    }

    /// Scroll the draft, as far as it goes.
    pub fn scroll_rows(&mut self, lines: i32, columns: usize)
        ensures
            final(self)@ == (ComposerView {
                scroll: scrolled_by(
                    old(self)@.scroll,
                    lines as int,
                    old(self)@.rows(columns as nat),
                ),
                ..old(self)@
            }),
            old(self)@.wf() ==> final(self)@.wf(),
    {
        let (last, _) = end_place(self.draft.as_slice(), draft_width(columns));
        let most: usize = if last >= MAX_ROWS {
            last - (MAX_ROWS - 1)
        } else {
            0
        };
        let target: i128 = self.scroll as i128 + lines as i128;
        self.scroll = if target < 0 {
            0
        } else if target > most as i128 {
            most
        } else {
            target as usize
        };
        assert(self@ =~= (ComposerView {
            scroll: scrolled_by(old(self)@.scroll, lines as int, old(self)@.rows(columns as nat)),
            ..old(self)@
        }));
    }
}

/// A scroll position that moves by some lines, within `total` rows.
pub open spec fn scrolled_by(scroll: nat, lines: int, total: nat) -> nat {
    let most = if total > MAX_ROWS {
        (total - MAX_ROWS) as nat
    } else {
        0
    };
    let target = scroll + lines;
    if target < 0 {
        0
    } else if target > most {
        most
    } else {
        target as nat
    }
}

// ---------------------------------------------------------------------------
// Laws
// ---------------------------------------------------------------------------

/// Wherever the insertion point stands, its row is one of the visible rows.
pub proof fn law_cursor_is_visible(c: ComposerView, columns: nat)
    requires
        c.wf(),
    ensures
        ({
            let total = c.rows(columns);
            let visible = if total < MAX_ROWS {
                total
            } else {
                MAX_ROWS as nat
            };
            let end = total - c.shown(columns).scroll;
            end - visible <= c.place(columns).0 < end <= total
        }),
{
    lemma_place_prefix(c.draft, draft_width_of(columns), c.cursor as int);
}

/// Removing what was typed last brings the draft back.
pub proof fn law_backspace_undoes_typing(c: ComposerView, ch: char, columns: nat)
    requires
        c.wf(),
    ensures
        c.inserted(seq![ch], columns).backspaced(columns).draft == c.draft,
        c.inserted(seq![ch], columns).backspaced(columns).cursor == c.cursor,
{
    let t = c.inserted(seq![ch], columns);
    assert(t.without(c.cursor as int) =~= c.draft);
}

/// Moving changes no character: only deletion does.
pub proof fn law_moving_keeps_the_draft(c: ComposerView, key: Navigation, columns: nat)
    requires
        key != Navigation::Delete,
    ensures
        c.moved(key, columns).draft == c.draft,
{
}

/// What is typed or pasted stands at the insertion point, whole, and the
/// insertion point behind it; what stood before it and after it stays.
pub proof fn law_typing_goes_to_the_insertion_point(c: ComposerView, text: Seq<char>, columns: nat)
    requires
        c.wf(),
    ensures
        ({
            let d = c.inserted(text, columns);
            let k = c.cursor as int;
            let n = text.len() as int;
            &&& d.draft.len() == c.draft.len() + n
            &&& d.cursor == k + n
            &&& forall|i: int| 0 <= i < k ==> #[trigger] d.draft[i] == c.draft[i]
            &&& forall|i: int| 0 <= i < n ==> #[trigger] d.draft[k + i] == text[i]
            &&& forall|i: int| k <= i < c.draft.len() ==> #[trigger] d.draft[i + n] == c.draft[i]
        }),
{
}

/// Delete removes the one character at the insertion point: those before it
/// stay, those after it move up, and the insertion point does not move. At
/// the end of the draft there is nothing to remove.
pub proof fn law_delete_removes_one_character(c: ComposerView, columns: nat)
    requires
        c.wf(),
    ensures
        ({
            let d = c.moved(Navigation::Delete, columns);
            let k = c.cursor as int;
            &&& d.cursor == k
            &&& k == c.draft.len() ==> d.draft == c.draft
            &&& k < c.draft.len() ==> d.draft.len() == c.draft.len() - 1
            &&& forall|i: int| 0 <= i < k ==> #[trigger] d.draft[i] == c.draft[i]
            &&& forall|i: int| k <= i < d.draft.len() ==> #[trigger] d.draft[i] == c.draft[i + 1]
                || k == c.draft.len()
        }),
{
}

/// Backspace removes the one character before the insertion point, which
/// moves with it: those before it stay, those after it move up. At the
/// beginning there is nothing to remove.
pub proof fn law_backspace_removes_one_character(c: ComposerView, columns: nat)
    requires
        c.wf(),
    ensures
        ({
            let d = c.backspaced(columns);
            let k = c.cursor as int;
            &&& k == 0 ==> d.draft == c.draft && d.cursor == 0
            &&& k > 0 ==> d.draft.len() == c.draft.len() - 1 && d.cursor == k - 1
            &&& k > 0 ==> forall|i: int| 0 <= i < k - 1 ==> #[trigger] d.draft[i] == c.draft[i]
            &&& k > 0 ==> forall|i: int|
                k - 1 <= i < d.draft.len() ==> #[trigger] d.draft[i] == c.draft[i + 1]
        }),
{
}

/// Left and Right move by one character, within the draft, and undo each
/// other.
pub proof fn law_arrows_move_by_one_character(c: ComposerView, columns: nat)
    requires
        c.wf(),
    ensures
        c.cursor > 0 ==> c.moved(Navigation::Left, columns).cursor == c.cursor - 1,
        c.cursor == 0 ==> c.moved(Navigation::Left, columns).cursor == 0,
        c.cursor < c.draft.len() ==> c.moved(Navigation::Right, columns).cursor == c.cursor + 1,
        c.cursor == c.draft.len() ==> c.moved(Navigation::Right, columns).cursor == c.cursor,
{
}

proof fn lemma_line_start(text: Seq<char>)
    ensures
        line_start(text) <= text.len(),
        line_start(text) > 0 ==> text[line_start(text) - 1] == '\n',
        forall|i: int| line_start(text) <= i < text.len() ==> text[i] != '\n',
    decreases text.len(),
{
    if text.len() > 0 && text.last() != '\n' {
        lemma_line_start(text.drop_last());
        assert forall|i: int| line_start(text) <= i < text.len() implies text[i] != '\n' by {
            if i < text.len() - 1 {
                assert(text.drop_last()[i] == text[i]);
            }
        }
    }
}

proof fn lemma_line_end(text: Seq<char>, i: int)
    requires
        0 <= i <= text.len(),
    ensures
        i <= line_end(text, i) <= text.len(),
        line_end(text, i) < text.len() ==> text[line_end(text, i)] == '\n',
        forall|j: int| i <= j < line_end(text, i) ==> text[j] != '\n',
    decreases text.len() - i,
{
    if i < text.len() && text[i] != '\n' {
        lemma_line_end(text, i + 1);
    }
}

/// Home and End move to the ends of the line: between them and where the
/// insertion point stood is no line break, and beyond them is one or the
/// draft ends.
pub proof fn law_home_and_end_stay_on_the_line(c: ComposerView, columns: nat)
    requires
        c.wf(),
    ensures
        ({
            let home = c.moved(Navigation::Home, columns).cursor as int;
            let end = c.moved(Navigation::End, columns).cursor as int;
            &&& home <= c.cursor <= end <= c.draft.len()
            &&& forall|i: int| home <= i < end ==> #[trigger] c.draft[i] != '\n'
            &&& home > 0 ==> c.draft[home - 1] == '\n'
            &&& end < c.draft.len() ==> c.draft[end] == '\n'
        }),
{
    let head = c.draft.take(c.cursor as int);
    lemma_line_start(head);
    lemma_line_end(c.draft, c.cursor as int);
    let home = c.moved(Navigation::Home, columns).cursor as int;
    let end = c.moved(Navigation::End, columns).cursor as int;
    assert forall|i: int| home <= i < end implies #[trigger] c.draft[i] != '\n' by {
        if i < c.cursor {
            assert(head[i] == c.draft[i]);
        }
    }
}

/// Up and Down move to the row above and below, to the place nearest to the
/// column that was left first, and stay where there is no such row.
pub proof fn law_up_and_down_move_by_one_row(c: ComposerView, columns: nat, up: bool)
    requires
        c.wf(),
        c.preferred_column is None,
        c.draft.len() <= usize::MAX,
    ensures
        ({
            let d = c.moved(
                if up {
                    Navigation::Up
                } else {
                    Navigation::Down
                },
                columns,
            );
            let (row, col) = c.place(columns);
            let (to, at) = d.place(columns);
            &&& d.cursor <= c.draft.len()
            &&& up && row > 0 ==> to == row - 1 && at <= col
            &&& up && row == 0 ==> d.cursor == c.cursor
            &&& !up && row + 1 < c.rows(columns) ==> to == row + 1 && at <= col
            &&& !up && row + 1 >= c.rows(columns) ==> d.cursor == c.cursor
        }),
{
    let width = draft_width_of(columns);
    let (row, col) = c.place(columns);
    crate::draft::lemma_place_bounds(c.draft.take(c.cursor as int), width);
    assert(c.draft.take(c.draft.len() as int) =~= c.draft);
    lemma_place_prefix(c.draft, width, c.cursor as int);
    if up && row > 0 {
        let j = lemma_row_begins(c.draft, width, (row - 1) as nat, c.cursor as int);
        crate::draft::law_the_nearest_place_is_found(c.draft, width, (row - 1) as nat, col, j);
    } else if !up {
        if row + 1 < c.rows(columns) {
            let j = lemma_row_begins(c.draft, width, row + 1, c.draft.len() as int);
            crate::draft::law_the_nearest_place_is_found(c.draft, width, row + 1, col, j);
        } else if index_on_row(c.draft, width, row + 1, col) is Some {
            crate::draft::law_found_places_stand_on_their_row(c.draft, width, row + 1, col);
            let i = index_on_row(c.draft, width, row + 1, col)->0;
            lemma_place_prefix(c.draft, width, i as int);
        }
    }
}

/// Every row up to that of a place has a beginning.
proof fn lemma_row_begins(text: Seq<char>, width: nat, row: nat, n: int) -> (j: int)
    requires
        width >= 1,
        0 <= n <= text.len(),
        row <= place(text.take(n), width).0,
    ensures
        0 <= j <= n,
        place(text.take(j), width) == (row, 0nat),
    decreases n,
{
    if place(text.take(n), width) == (row, 0nat) {
        n
    } else {
        assert(n > 0) by {
            if n == 0 {
                assert(text.take(0) =~= Seq::empty());
            }
        }
        assert(text.take(n).drop_last() =~= text.take(n - 1));
        lemma_row_begins(text, width, row, n - 1)
    }
}

/// The draft is scrolled only as far as needed: where the insertion point is
/// visible already, nothing moves.
pub proof fn law_visible_drafts_are_not_scrolled(c: ComposerView, columns: nat)
    requires
        c.wf(),
        ({
            let total = c.rows(columns);
            let visible = if total < MAX_ROWS {
                total
            } else {
                MAX_ROWS as nat
            };
            &&& c.scroll <= total - visible
            &&& total - c.scroll - visible <= c.place(columns).0 < total - c.scroll
        }),
    ensures
        c.shown(columns) == c,
{
}

/// Scrolling by hand moves by as many rows as it says, as far as there are
/// any.
pub proof fn law_scrolling_moves_by_rows(scroll: nat, lines: int, total: nat)
    ensures
        total <= MAX_ROWS ==> scrolled_by(scroll, lines, total) == 0,
        scrolled_by(scroll, lines, total) + MAX_ROWS <= total || scrolled_by(scroll, lines, total)
            == 0,
        0 <= scroll + lines && scroll + lines + MAX_ROWS <= total ==> scrolled_by(
            scroll,
            lines,
            total,
        ) == scroll + lines,
        scroll + lines + MAX_ROWS > total && total >= MAX_ROWS ==> scrolled_by(scroll, lines, total)
            == total - MAX_ROWS,
        scroll + lines <= 0 ==> scrolled_by(scroll, lines, total) == 0,
{
}

/// What is cleared is empty.
pub proof fn law_cleared_drafts_are_empty(c: ComposerView)
    ensures
        c.cleared().draft.len() == 0,
        c.cleared().cursor == 0,
{
}

/// The view follows the insertion point by as little as it takes: a row above
/// becomes the first one that is visible, and a row below the last.
pub proof fn law_the_view_follows_the_insertion_point(total: nat, row: nat, scroll: nat)
    requires
        row < total,
        total > MAX_ROWS,
        scroll + MAX_ROWS <= total,
    ensures
        ({
            let end = total - scroll;
            let start = end - MAX_ROWS;
            let after = total - scroll_for(total, row, scroll);
            &&& row < start ==> after - MAX_ROWS == row
            &&& row >= end ==> after == row + 1
            &&& start <= row < end ==> after == end
        }),
{
}

}
